//! What holds of a drain's waits and verdicts, of what is observed in a batch, and of what
//! is reported.

use crate::client::drain::{
    after_skip, closed_stop, counts_ingest, gate_verdict, quantum_stop, silence_stop, turns,
    verdict_word, AccountSubscriptionEose, DeliveryIngest, DrainCompletion, DrainCounts, DrainLoop,
    DrainTurn, DrainVerdict,
};
use crate::client::events::{event_group, EventContent, GroupEvent};
use crate::client::observe::{
    crosses_frontier, cutoff_state, earlier_cutoff, event_groups, evidence_of, frontier_texts,
    left_groups, AppEventKinds, ConvergenceScheduleState, EvidenceContent,
};
use crate::client::summary::{without_message, ReceivedMessage, SlotsContent, SummaryContent};
use crate::client::sync::{after_failure, failure_report};
use crate::client::visibility::OutboundActionOutcome;
use crate::order::{lemma_push_contains, push_unique};
use crate::text::hex_text;
use vstd::prelude::*;

verus! {

/// A drain is confirmed exactly where it has subscriptions and every one of them, at every
/// relay, reached the end of its stored events. It is unanswered where none did.
pub proof fn law_confirmation_needs_every_relay(eose: AccountSubscriptionEose)
    ensures
        gate_verdict(eose) is Complete <==> {
            &&& eose.subscriptions > 0
            &&& eose.with_eose == eose.subscriptions
            &&& eose.relay_subscription_attempts_with_eose == eose.relay_subscription_attempts
        },
        gate_verdict(eose) is NoRelayEose <==> eose.subscriptions == 0 || eose.with_eose == 0,
        gate_verdict(eose) is Complete || gate_verdict(eose) is NoRelayEose || gate_verdict(
            eose,
        ) is EoseTimeout,
{
}

/// A drain that has to see the end of stored events goes on only while it is neither
/// confirmed, nor out of its time, nor silent for too long. Where its time runs out, its
/// verdict tells whether anything was kept.
pub proof fn law_drain_ends_with_its_time_or_its_patience(
    silence_budget_ms: u64,
    execution_quantum_ms: u64,
    eose: AccountSubscriptionEose,
    durable: int,
    drain_elapsed: int,
    silence_elapsed: int,
)
    ensures
        ({
            let stop = silence_stop(
                DrainCompletion::EndOfStoredEvents { silence_budget_ms, execution_quantum_ms },
                eose,
                durable,
                drain_elapsed,
                silence_elapsed,
            );
            &&& stop is None <==> !(gate_verdict(eose) is Complete) && drain_elapsed
                < execution_quantum_ms && silence_elapsed < silence_budget_ms
            &&& !(gate_verdict(eose) is Complete) && drain_elapsed >= execution_quantum_ms ==> stop
                == Some(
                if durable > 0 {
                    DrainVerdict::NovelProgressQuantumYield
                } else {
                    DrainVerdict::NoProgressQuantumYield
                },
            )
            &&& !(gate_verdict(eose) is Complete) && drain_elapsed < execution_quantum_ms
                && silence_elapsed >= silence_budget_ms ==> stop == Some(
                if eose.subscriptions == 0 || eose.with_eose == 0 {
                    DrainVerdict::NoRelayEose
                } else {
                    DrainVerdict::EoseTimeout
                },
            )
        }),
        quantum_stop(eose, durable) is Complete <==> gate_verdict(eose) is Complete,
        durable > 0 && !(gate_verdict(eose) is Complete) ==> quantum_stop(eose, durable)
            is NovelProgressQuantumYield,
        durable <= 0 && !(gate_verdict(eose) is Complete) ==> quantum_stop(eose, durable)
            is NoProgressQuantumYield,
        closed_stop(DrainCompletion::Quiescence, eose) is Complete,
{
}

/// A drain waits as long as is set for its first or a later wait, but never past its time.
/// Once its time is over it waits no more.
pub proof fn law_wait_never_runs_past_the_time(
    before: DrainLoop,
    after: DrainLoop,
    turn: DrainTurn,
    now_ms: u64,
)
    requires
        turns(before, after, turn, now_ms),
    ensures
        before.completion matches DrainCompletion::EndOfStoredEvents { execution_quantum_ms, .. }
            ==> {
            &&& turn is QuantumElapsed <==> execution_quantum_ms == 0 || now_ms - before.started_ms
                >= execution_quantum_ms
            &&& turn matches DrainTurn::Receive { wait_ms } ==> wait_ms <= execution_quantum_ms
                && wait_ms + now_ms <= execution_quantum_ms + before.started_ms
            &&& turn matches DrainTurn::Receive { wait_ms } ==> wait_ms == (if before.first_wait {
                before.timings.first_wait_ms
            } else {
                before.timings.drain_wait_ms
            }) || wait_ms == execution_quantum_ms || wait_ms + now_ms == execution_quantum_ms
                + before.started_ms
        },
        before.completion is Quiescence ==> turn is Receive,
        turn matches DrainTurn::Receive { wait_ms } ==> {
            &&& wait_ms <= (if before.first_wait {
                before.timings.first_wait_ms
            } else {
                before.timings.drain_wait_ms
            })
            &&& before.completion is Quiescence ==> wait_ms == (if before.first_wait {
                before.timings.first_wait_ms
            } else {
                before.timings.drain_wait_ms
            })
            &&& !after.first_wait
        },
        after.counts == before.counts,
        after.started_ms == before.started_ms,
{
}

/// Every taken delivery counts. It counts as kept unless it has to stay fetchable, and as
/// refused with its group where a bound refused it; nothing that was skipped counts.
pub proof fn law_deliveries_are_counted(
    before: DrainCounts,
    after: DrainCounts,
    ingest: DeliveryIngest,
)
    requires
        counts_ingest(before, after, ingest),
        before.deliveries < u64::MAX,
        before.unpersisted < u64::MAX,
        before.refused < u64::MAX,
        before.unpersisted <= before.deliveries,
    ensures
        after.deliveries == before.deliveries + 1,
        after.skipped == before.skipped,
        ingest.must_stay_fetchable ==> after.durable() == before.durable(),
        !ingest.must_stay_fetchable ==> after.durable() == before.durable() + 1,
        ingest.refused_group is None ==> after.refused == before.refused
            && after.refused_groups.sequence() == before.refused_groups.sequence(),
        ingest.refused_group matches Some(group) ==> after.refused == before.refused + 1
            && after.refused_groups.sequence().contains(group.deep_view()),
        forall|group: Seq<u8>| #[trigger]
            before.refused_groups.sequence().contains(group)
                ==> after.refused_groups.sequence().contains(group),
{
    if let Some(group) = ingest.refused_group {
        lemma_push_contains(
            before.refused_groups.sequence(),
            group.deep_view(),
            group.deep_view(),
        );
        assert forall|other: Seq<u8>| #[trigger]
            before.refused_groups.sequence().contains(
                other,
            ) implies after.refused_groups.sequence().contains(other) by {
            lemma_push_contains(
                before.refused_groups.sequence(),
                group.deep_view(),
                other,
            );
        }
    }
}

/// A skipped delivery breaks the silence and counts as skipped, not as taken.
pub proof fn law_skipped_delivery_breaks_the_silence(drain: DrainLoop, now_ms: u64)
    requires
        drain.counts.skipped < u64::MAX,
    ensures
        after_skip(drain, now_ms).silence_started_ms == now_ms,
        after_skip(drain, now_ms).counts.skipped == drain.counts.skipped + 1,
        after_skip(drain, now_ms).counts.deliveries == drain.counts.deliveries,
        after_skip(drain, now_ms).started_ms == drain.started_ms,
        after_skip(drain, now_ms).routes_dirty == drain.routes_dirty,
{
}

/// Each verdict but success has a word of its own.
pub proof fn law_verdicts_have_words_of_their_own(left: DrainVerdict, right: DrainVerdict)
    requires
        verdict_word(left) == verdict_word(right),
    ensures
        left == right,
{
    reveal_strlit("backfill_drain_eose_timeout");
    reveal_strlit("backfill_drain_no_relay_eose");
    reveal_strlit("backfill_drain_novel_progress_quantum_yield");
    reveal_strlit("backfill_drain_no_progress_quantum_yield");
    reveal_strlit("account_delivery_queue_overflow");
    assert("backfill_drain_eose_timeout"@.len() == 27);
    assert("backfill_drain_no_relay_eose"@.len() == 28);
    assert("backfill_drain_novel_progress_quantum_yield"@.len() == 43);
    assert("backfill_drain_no_progress_quantum_yield"@.len() == 40);
    assert("account_delivery_queue_overflow"@.len() == 31);
}

/// The evidence in a batch is exactly its passages from epoch to epoch and its refusals.
pub proof fn law_evidence_is_what_the_events_tell(events: Seq<GroupEvent>)
    ensures
        forall|group: Seq<u8>, from: u64, to: u64|
            #![trigger evidence_of(events).contains(EvidenceContent::EpochPassage(group, from, to))]
            evidence_of(events).contains(EvidenceContent::EpochPassage(group, from, to))
                <==> exists|i: int|
                0 <= i < events.len() && (#[trigger] events[i]).deep_view()
                    == EventContent::EpochChanged(group, from, to),
        forall|group: Seq<u8>|
            #![trigger evidence_of(events).contains(EvidenceContent::ResourceRefusal(group))]
            evidence_of(events).contains(EvidenceContent::ResourceRefusal(group)) <==> exists|
                i: int,
            |
                0 <= i < events.len() && (#[trigger] events[i]).deep_view()
                    == EventContent::ResourceRefused(group),
        evidence_of(events).len() <= events.len(),
    decreases events.len(),
{
    if events.len() > 0 {
        let rest = events.drop_last();
        let last = events.last();
        law_evidence_is_what_the_events_tell(rest);
        assert(events[events.len() - 1] == last);
        assert forall|i: int| 0 <= i < rest.len() implies events[i] == #[trigger] rest[i] by {}
        assert forall|piece: EvidenceContent| #[trigger]
            evidence_of(events).contains(piece) <==> evidence_of(rest).contains(piece) || (
            last.deep_view() matches EventContent::EpochChanged(group, from, to) && piece
                == EvidenceContent::EpochPassage(group, from, to)) || (
            last.deep_view() matches EventContent::ResourceRefused(group) && piece
                == EvidenceContent::ResourceRefusal(group)) by {
            if evidence_of(events) != evidence_of(rest) {
                lemma_push_contains(evidence_of(rest), evidence_of(events).last(), piece);
                assert(evidence_of(events) =~= evidence_of(rest).push(evidence_of(events).last()));
            }
        }
        assert forall|group: Seq<u8>, from: u64, to: u64|
            #![trigger evidence_of(events).contains(EvidenceContent::EpochPassage(group, from, to))]
            evidence_of(events).contains(EvidenceContent::EpochPassage(group, from, to))
                <==> exists|i: int|
                0 <= i < events.len() && (#[trigger] events[i]).deep_view()
                    == EventContent::EpochChanged(group, from, to) by {
            let piece = EvidenceContent::EpochPassage(group, from, to);
            if evidence_of(rest).contains(piece) {
                let i = choose|i: int|
                    0 <= i < rest.len() && (#[trigger] rest[i]).deep_view()
                        == EventContent::EpochChanged(group, from, to);
                assert(events[i] == rest[i]);
            }
            if exists|i: int|
                0 <= i < events.len() && (#[trigger] events[i]).deep_view()
                    == EventContent::EpochChanged(group, from, to) {
                let i = choose|i: int|
                    0 <= i < events.len() && (#[trigger] events[i]).deep_view()
                        == EventContent::EpochChanged(group, from, to);
                if i < rest.len() {
                    assert(rest[i] == events[i]);
                    assert(evidence_of(rest).contains(piece));
                }
            }
        }
        assert forall|group: Seq<u8>|
            #![trigger evidence_of(events).contains(EvidenceContent::ResourceRefusal(group))]
            evidence_of(events).contains(EvidenceContent::ResourceRefusal(group)) <==> exists|
                i: int,
            |
                0 <= i < events.len() && (#[trigger] events[i]).deep_view()
                    == EventContent::ResourceRefused(group) by {
            let piece = EvidenceContent::ResourceRefusal(group);
            if evidence_of(rest).contains(piece) {
                let i = choose|i: int|
                    0 <= i < rest.len() && (#[trigger] rest[i]).deep_view()
                        == EventContent::ResourceRefused(group);
                assert(events[i] == rest[i]);
            }
            if exists|i: int|
                0 <= i < events.len() && (#[trigger] events[i]).deep_view()
                    == EventContent::ResourceRefused(group) {
                let i = choose|i: int|
                    0 <= i < events.len() && (#[trigger] events[i]).deep_view()
                        == EventContent::ResourceRefused(group);
                if i < rest.len() {
                    assert(rest[i] == events[i]);
                    assert(evidence_of(rest).contains(piece));
                }
            }
        }
    }
}

/// The groups of a batch are exactly those that its events concern; of their texts each
/// stands once.
pub proof fn law_groups_of_a_batch_are_those_of_its_events(
    events: Seq<GroupEvent>,
    group: Seq<u8>,
)
    ensures
        event_groups(events).contains(group) <==> exists|i: int|
            0 <= i < events.len() && event_group((#[trigger] events[i]).deep_view()) == Some(group),
        event_groups(events).contains(group) ==> frontier_texts(events).contains(hex_text(group)),
        frontier_texts(events).no_duplicates(),
    decreases events.len(),
{
    if events.len() > 0 {
        let rest = events.drop_last();
        let last = events.last();
        law_groups_of_a_batch_are_those_of_its_events(rest, group);
        assert(events[events.len() - 1] == last);
        assert forall|i: int| 0 <= i < rest.len() implies events[i] == #[trigger] rest[i] by {}
        if let Some(own) = event_group(last.deep_view()) {
            lemma_push_contains(event_groups(rest), own, group);
            lemma_push_contains(frontier_texts(rest), hex_text(own), hex_text(group));
            lemma_push_contains(frontier_texts(rest), hex_text(own), hex_text(own));
            lemma_push_unique_distinct(frontier_texts(rest), hex_text(own));
        }
        if event_groups(rest).contains(group) {
            let i = choose|i: int|
                0 <= i < rest.len() && event_group((#[trigger] rest[i]).deep_view()) == Some(group);
            assert(events[i] == rest[i]);
        }
        if exists|i: int|
            0 <= i < events.len() && event_group((#[trigger] events[i]).deep_view()) == Some(
                group,
            ) {
            let i = choose|i: int|
                0 <= i < events.len() && event_group((#[trigger] events[i]).deep_view()) == Some(
                    group,
                );
            if i < rest.len() {
                assert(rest[i] == events[i]);
            }
        }
    }
}

proof fn lemma_push_unique_distinct<T>(items: Seq<T>, item: T)
    requires
        items.no_duplicates(),
    ensures
        push_unique(items, item).no_duplicates(),
{
    let after = push_unique(items, item);
    assert forall|a: int, b: int| 0 <= a < after.len() && 0 <= b < after.len() && a
        != b implies after[a] != after[b] by {
        if !items.contains(item) {
            if a == items.len() {
                assert(items.contains(items[b]));
            } else if b == items.len() {
                assert(items.contains(items[a]));
            }
        }
    }
}

/// A group is recorded as left exactly where the action of leaving it was published.
pub proof fn law_only_published_departures_are_recorded(
    outcomes: Seq<OutboundActionOutcome>,
    text: Seq<char>,
)
    ensures
        left_groups(outcomes).contains(text) <==> exists|i: int|
            0 <= i < outcomes.len() && (#[trigger] outcomes[i]).published && hex_text(
                outcomes[i].group_id.deep_view(),
            ) == text,
    decreases outcomes.len(),
{
    if outcomes.len() > 0 {
        let rest = outcomes.drop_last();
        let last = outcomes.last();
        law_only_published_departures_are_recorded(rest, text);
        assert(outcomes[outcomes.len() - 1] == last);
        lemma_push_contains(left_groups(rest), hex_text(last.group_id.deep_view()), text);
        if left_groups(rest).contains(text) {
            let i = choose|i: int|
                0 <= i < rest.len() && (#[trigger] rest[i]).published && hex_text(
                    rest[i].group_id.deep_view(),
                ) == text;
            assert(outcomes[i] == rest[i]);
        }
        if exists|i: int|
            0 <= i < outcomes.len() && (#[trigger] outcomes[i]).published && hex_text(
                outcomes[i].group_id.deep_view(),
            ) == text {
            let i = choose|i: int|
                0 <= i < outcomes.len() && (#[trigger] outcomes[i]).published && hex_text(
                    outcomes[i].group_id.deep_view(),
                ) == text;
            if i < rest.len() {
                assert(rest[i] == outcomes[i]);
            }
        }
    }
}

/// A deleted group that is not gone for good comes back by joining it again or by a newer
/// chat message, and by nothing else.
pub proof fn law_deleted_group_comes_back_by_a_join_or_a_newer_chat(
    event: EventContent,
    group_terminal: bool,
    decoded_kind: Option<u64>,
    newer_than_frontier: bool,
    kinds: AppEventKinds,
)
    ensures
        group_terminal ==> !crosses_frontier(
            event,
            group_terminal,
            decoded_kind,
            newer_than_frontier,
            kinds,
        ),
        event is GroupJoined && !group_terminal ==> crosses_frontier(
            event,
            group_terminal,
            decoded_kind,
            newer_than_frontier,
            kinds,
        ),
        event is MessageReceived && !group_terminal ==> (crosses_frontier(
            event,
            group_terminal,
            decoded_kind,
            newer_than_frontier,
            kinds,
        ) <==> decoded_kind == Some(kinds.chat) && newer_than_frontier),
        !(event is GroupJoined || event is MessageReceived) ==> !crosses_frontier(
            event,
            group_terminal,
            decoded_kind,
            newer_than_frontier,
            kinds,
        ),
{
}

/// Convergence is due at the earlier of two times, and at once where nothing remains.
pub proof fn law_convergence_is_due_at_the_earlier_time(remaining_ms: u64, other: Option<u64>)
    ensures
        earlier_cutoff(remaining_ms, other) <= remaining_ms,
        other matches Some(ms) ==> earlier_cutoff(remaining_ms, other) <= ms,
        earlier_cutoff(remaining_ms, other) == remaining_ms || other == Some(
            earlier_cutoff(remaining_ms, other),
        ),
        cutoff_state(remaining_ms) is Ready <==> remaining_ms == 0,
        remaining_ms > 0 ==> cutoff_state(remaining_ms) == (ConvergenceScheduleState::Collecting {
            remaining_ms,
        }),
{
}

/// Dropping a message drops every copy of it and nothing else.
pub proof fn law_dropped_message_is_gone(
    messages: Seq<ReceivedMessage>,
    message_id_hex: Seq<char>,
    message: ReceivedMessage,
)
    ensures
        without_message(messages, message_id_hex).contains(message) <==> messages.contains(message)
            && message.message_id_hex@ != message_id_hex,
    decreases messages.len(),
{
    if messages.len() > 0 {
        let rest = messages.drop_last();
        law_dropped_message_is_gone(rest, message_id_hex, message);
        assert(messages =~= rest.push(messages.last()));
        lemma_push_contains(rest, messages.last(), message);
        lemma_push_contains(
            without_message(rest, message_id_hex),
            messages.last(),
            message,
        );
    }
}

/// What comes later is added behind what came before, and nothing of either is lost.
pub proof fn law_reports_are_joined_in_order(earlier: SummaryContent, later: SummaryContent)
    ensures
        ({
            let joined = earlier.followed_by(later);
            &&& joined.messages.len() == earlier.messages.len() + later.messages.len()
            &&& forall|i: int|
                0 <= i < earlier.messages.len() ==> #[trigger] joined.messages[i]
                    == earlier.messages[i]
            &&& forall|i: int|
                0 <= i < later.messages.len() ==> joined.messages[earlier.messages.len() + i]
                    == #[trigger] later.messages[i]
            &&& joined.joined_groups.take(earlier.joined_groups.len() as int)
                == earlier.joined_groups
            &&& joined.joined_groups.skip(earlier.joined_groups.len() as int)
                == later.joined_groups
            &&& joined.events.take(earlier.events.len() as int) == earlier.events
            &&& joined.events.skip(earlier.events.len() as int) == later.events
            &&& joined.projection_updates.take(earlier.projection_updates.len() as int)
                == earlier.projection_updates
            &&& joined.projection_updates.skip(earlier.projection_updates.len() as int)
                == later.projection_updates
            &&& joined.epoch_stall_escalations.take(earlier.epoch_stall_escalations.len() as int)
                == earlier.epoch_stall_escalations
            &&& joined.epoch_stall_escalations.skip(earlier.epoch_stall_escalations.len() as int)
                == later.epoch_stall_escalations
        }),
{
}

/// A failure reports what was settled before it, where that is anything, and every
/// escalation. What it does not report stays owed, and nothing is reported twice.
pub proof fn law_failure_reports_or_keeps_what_is_owed(slots: SlotsContent)
    ensures
        failure_report(slots).epoch_stall_escalations.skip(
            failure_report(slots).epoch_stall_escalations.len() - slots.escalations.len(),
        ) == slots.escalations,
        after_failure(slots).escalations.len() == 0,
        after_failure(slots).uncheckpointed == slots.uncheckpointed,
        slots.checkpointed matches Some(settled) ==> if settled == SummaryContent::nothing() {
            after_failure(slots).checkpointed == slots.checkpointed
        } else {
            &&& failure_report(slots).messages == settled.messages
            &&& failure_report(slots).events == settled.events
            &&& failure_report(slots).joined_groups == settled.joined_groups
            &&& failure_report(slots).projection_updates == settled.projection_updates
            &&& after_failure(slots).checkpointed is None
        },
        slots.checkpointed is None ==> failure_report(slots).messages.len() == 0 && after_failure(
            slots,
        ).checkpointed is None,
{
}

} // verus!
