//! What holds of the queue of replays, of the intents in it, and of the order in which
//! routes are reconciled.

use crate::client::backfill_intent::{
    malformed_rows, stored_groups_fault, stored_intent_fault, table_epoch, IntentContent,
    PersistedContent, StoredEpochBackfillIntent,
};
use crate::client::backfill_restore::{
    all_groups, armed_unknown, counts_as_live, journal_deadline, joined_queue, live_queue,
    queue_groups, survivor, survivors,
};
use crate::client::epoch_backfill::{
    backoff_ms, intent_bag, power_of_two, started_intent, QueueContent,
    EPOCH_BACKFILL_RETRY_BACKOFF_CAP_MS,
};
use crate::client::reconcile::{
    delivery_route, offered_work, optional_route_lt, pass_work, rotated, route_lt, tally_with,
    work_start, GroupRoute,
    ReconciliationTally, RouteAttempt, RouteContent, TransportDelivery, TransportEnvelope,
    TransportReconciliationWork, TRANSPORT_RECONCILIATION_MAX_ROUTES_PER_PASS,
};
use crate::collections::{
    kept_keys, kept_values, lemma_kept, lemma_map_push, lemma_map_update, pair_lookup,
};
use crate::order::{
    bytes_lt, lemma_extend_unique, lemma_push_contains, lemma_stable_sorted, stable_sorted,
    Ordered,
};
use crate::text::{hex_bytes, is_hex_text};
use vstd::prelude::*;
use vstd::seq_lib::group_to_multiset_ensures;

verus! {

/// The first retry waits for the set time. Each further one, of the first few, waits twice
/// as long as the one before, until the cap, which only a longer set time exceeds.
pub proof fn law_backoff_doubles_until_its_cap(base_ms: u64, retry_ordinal: u64)
    ensures
        backoff_ms(base_ms, 0) == base_ms,
        retry_ordinal < 8 && 2 * backoff_ms(base_ms, retry_ordinal)
            <= EPOCH_BACKFILL_RETRY_BACKOFF_CAP_MS ==> backoff_ms(
            base_ms,
            (retry_ordinal + 1) as u64,
        ) == 2 * backoff_ms(base_ms, retry_ordinal),
        retry_ordinal < 8 && 2 * backoff_ms(base_ms, retry_ordinal)
            > EPOCH_BACKFILL_RETRY_BACKOFF_CAP_MS && base_ms <= EPOCH_BACKFILL_RETRY_BACKOFF_CAP_MS
            ==> backoff_ms(base_ms, (retry_ordinal + 1) as u64)
            == EPOCH_BACKFILL_RETRY_BACKOFF_CAP_MS,
        base_ms > EPOCH_BACKFILL_RETRY_BACKOFF_CAP_MS ==> backoff_ms(base_ms, retry_ordinal)
            == base_ms,
        retry_ordinal >= 8 ==> backoff_ms(base_ms, retry_ordinal) == backoff_ms(base_ms, 8),
{
    let e: nat = if retry_ordinal < 8 {
        retry_ordinal as nat
    } else {
        8
    };
    assert(power_of_two(0) == 1);
    assert(power_of_two(e + 1) == 2 * power_of_two(e));
    lemma_power_positive(e);
    assert(base_ms * power_of_two(0) == base_ms) by (nonlinear_arith)
        requires
            power_of_two(0) == 1,
    ;
    assert(base_ms * power_of_two(e + 1) == 2 * (base_ms * power_of_two(e))) by (nonlinear_arith)
        requires
            power_of_two(e + 1) == 2 * power_of_two(e),
    ;
    assert(base_ms * power_of_two(e) >= base_ms) by (nonlinear_arith)
        requires
            power_of_two(e) >= 1,
    ;
}

proof fn lemma_power_positive(e: nat)
    ensures
        power_of_two(e) >= 1,
    decreases e,
{
    if e > 0 {
        lemma_power_positive((e - 1) as nat);
    }
}

/// The pending intent is next; where there is none, the one that was queued first. Taking
/// it out takes out that one alone.
pub proof fn law_next_intent_alone_leaves_the_queue(queue: QueueContent)
    ensures
        queue.pending is Some ==> queue.next() == queue.pending,
        queue.pending is None && queue.queued.len() > 0 ==> queue.next() == Some(queue.queued[0]),
        queue.pending is None && queue.queued.len() == 0 ==> queue.next() is None
            && queue.without_next() == queue,
        queue.next() matches Some(intent) ==> intent_bag(queue.without_next()).insert(intent)
            == intent_bag(queue),
        queue.without_next().active == queue.active,
        queue.without_next().retry_not_before_ms == queue.retry_not_before_ms,
{
    broadcast use group_to_multiset_ensures;

    if let Some(intent) = queue.next() {
        let after = queue.without_next();
        if queue.pending is Some {
            assert(queue.intents() =~= seq![intent] + after.intents());
            lemma_front(after.intents(), intent);
        } else {
            let active = crate::client::epoch_backfill::optional_intent(queue.active);
            assert(queue.queued =~= seq![intent] + after.queued);
            assert(queue.intents() =~= active + queue.queued);
            assert(after.intents() =~= active + after.queued);
            vstd::seq_lib::lemma_multiset_commutative(active, queue.queued);
            vstd::seq_lib::lemma_multiset_commutative(active, after.queued);
            lemma_front(after.queued, intent);
            assert(intent_bag(after).insert(intent) =~= intent_bag(queue));
        }
    }
}

proof fn lemma_front<T>(items: Seq<T>, item: T)
    ensures
        (seq![item] + items).to_multiset() == items.to_multiset().insert(item),
{
    broadcast use group_to_multiset_ensures;

    vstd::seq_lib::lemma_multiset_commutative(seq![item], items);
    vstd::seq_lib::to_multiset_build(Seq::<T>::empty(), item);
    assert(Seq::<T>::empty().push(item) =~= seq![item]);
    assert((seq![item] + items).to_multiset() =~= items.to_multiset().insert(item));
}

/// An intent that failed waits again: as the pending one where there is none, and else behind
/// all that wait. Nothing else changes.
pub proof fn law_failed_intent_waits_again(queue: QueueContent, failed: IntentContent)
    ensures
        queue.pending is None ==> queue.requeued(failed).pending == Some(failed)
            && queue.requeued(failed).queued == queue.queued,
        queue.pending is Some ==> queue.requeued(failed).pending == queue.pending
            && queue.requeued(failed).queued == queue.queued.push(failed),
        queue.requeued(failed).active == queue.active,
        queue.requeued(failed).retry_not_before_ms == queue.retry_not_before_ms,
{
}

/// A start counts one more attempt and forgets the last deferral. All else of the intent
/// stays.
pub proof fn law_start_counts_an_attempt(intent: IntentContent)
    requires
        intent.execution_attempts < u32::MAX,
    ensures
        started_intent(intent).execution_attempts == intent.execution_attempts + 1,
        started_intent(intent).last_deferred_audit is None,
        started_intent(intent).groups == intent.groups,
        started_intent(intent).epochs == intent.epochs,
        started_intent(intent).attempt_id == intent.attempt_id,
        started_intent(intent).eose_unconfirmed_attempts == intent.eose_unconfirmed_attempts,
        started_intent(intent).no_progress_attempts == intent.no_progress_attempts,
{
}

/// Arming a group notes its epoch and leaves every other group's as it was.
pub proof fn law_armed_group_has_its_epoch(
    intent: IntentContent,
    group: Seq<u8>,
    epoch: u64,
    other: Seq<u8>,
)
    requires
        intent.groups.no_duplicates(),
        intent.groups.len() == intent.epochs.len(),
    ensures
        intent.armed(group, epoch).stalled_epoch(group) == Some(epoch),
        other != group ==> intent.armed(group, epoch).stalled_epoch(other)
            == intent.stalled_epoch(other),
        intent.armed(group, epoch).attempt_id == intent.attempt_id,
{
    if intent.groups.contains(group) {
        let i = intent.groups.index_of(group);
        lemma_map_update(intent.groups, intent.epochs, i, epoch);
    } else {
        lemma_map_push(intent.groups, intent.epochs, group, epoch);
    }
}

/// Restricting an intent to the groups that live keeps exactly these, each with its epoch.
pub proof fn law_restricted_intent_keeps_the_living(
    intent: IntentContent,
    live: Seq<Seq<u8>>,
    group: Seq<u8>,
)
    requires
        intent.groups.no_duplicates(),
        intent.groups.len() == intent.epochs.len(),
    ensures
        intent.restricted(live).stalled_epoch(group) == (if live.contains(group) {
            intent.stalled_epoch(group)
        } else {
            None
        }),
{
    lemma_kept(intent.groups, intent.epochs, live);
    assert(pair_lookup(
        kept_keys(intent.groups, live),
        kept_values(intent.groups, intent.epochs, live),
        group,
    ) == intent.restricted(live).stalled_epoch(group));
}

/// A stored intent is read back exactly where it has a name and groups, each group has an id
/// and stands once, and each group of its last deferral has one.
pub proof fn law_stored_intent_is_checked(stored: PersistedContent)
    ensures
        stored_intent_fault(stored) is None <==> {
            &&& stored.attempt_id.len() > 0
            &&& stored.groups.len() > 0
            &&& forall|i: int| 0 <= i < stored.groups.len() ==> (#[trigger] stored.groups[i]).0.len()
                > 0
            &&& forall|i: int, j: int|
                0 <= i < j < stored.groups.len() ==> (#[trigger] stored.groups[i]).0 != (
                #[trigger] stored.groups[j]).0
            &&& stored.last_deferred_audit matches Some(held) ==> forall|i: int|
                0 <= i < held.group_epochs.len() ==> (#[trigger] held.group_epochs[i]).0.len() > 0
        },
{
    lemma_stored_groups(stored.groups);
}

proof fn lemma_stored_groups(groups: Seq<(Seq<u8>, u64)>)
    ensures
        stored_groups_fault(groups) is None <==> {
            &&& forall|i: int| 0 <= i < groups.len() ==> (#[trigger] groups[i]).0.len() > 0
            &&& forall|i: int, j: int|
                0 <= i < j < groups.len() ==> (#[trigger] groups[i]).0 != (#[trigger] groups[j]).0
        },
    decreases groups.len(),
{
    if groups.len() > 0 {
        let rest = groups.drop_last();
        let last = groups.last();
        let end = groups.len() - 1;
        lemma_stored_groups(rest);
        assert(groups[end] == last);
        assert forall|i: int| 0 <= i < rest.len() implies groups[i] == #[trigger] rest[i] by {}
        if stored_groups_fault(groups) is None {
            assert forall|i: int| 0 <= i < groups.len() implies (#[trigger] groups[i]).0.len()
                > 0 by {
                if i < end {
                    assert(rest[i] == groups[i]);
                }
            }
            assert forall|i: int, j: int| 0 <= i < j < groups.len() implies (
            #[trigger] groups[i]).0 != (#[trigger] groups[j]).0 by {
                assert(rest[i] == groups[i]);
                if j < end {
                    assert(rest[j] == groups[j]);
                }
            }
        }
        if (forall|i: int| 0 <= i < groups.len() ==> (#[trigger] groups[i]).0.len() > 0) && (forall|
            i: int,
            j: int,
        |
            0 <= i < j < groups.len() ==> (#[trigger] groups[i]).0 != (#[trigger] groups[j]).0) {
            assert forall|i: int| 0 <= i < rest.len() implies (#[trigger] rest[i]).0.len() > 0 by {
                assert(rest[i] == groups[i]);
            }
            assert forall|i: int, j: int| 0 <= i < j < rest.len() implies (#[trigger] rest[i]).0
                != (#[trigger] rest[j]).0 by {
                assert(rest[i] == groups[i] && rest[j] == groups[j]);
            }
            assert forall|i: int| 0 <= i < rest.len() implies #[trigger] rest[i].0 != last.0 by {
                assert(groups[i].0 != groups[end].0);
            }
            assert(groups[end].0.len() > 0);
        }
    }
}

/// The epoch of a group in a stored table is that of its last row, and rows whose group
/// cannot be read say nothing.
pub proof fn law_last_row_of_a_group_counts(
    rows: Seq<StoredEpochBackfillIntent>,
    group: Seq<u8>,
)
    ensures
        table_epoch(rows, group) is Some <==> exists|i: int|
            0 <= i < rows.len() && is_hex_text((#[trigger] rows[i]).group_id_hex@) && hex_bytes(
                rows[i].group_id_hex@,
            ) == group,
        table_epoch(rows, group) matches Some(epoch) ==> exists|i: int|
            0 <= i < rows.len() && is_hex_text((#[trigger] rows[i]).group_id_hex@) && hex_bytes(
                rows[i].group_id_hex@,
            ) == group && rows[i].stalled_epoch == epoch && forall|j: int|
                i < j < rows.len() ==> !(is_hex_text((#[trigger] rows[j]).group_id_hex@)
                    && hex_bytes(rows[j].group_id_hex@) == group),
        malformed_rows(rows) == 0 <==> forall|i: int|
            0 <= i < rows.len() ==> is_hex_text((#[trigger] rows[i]).group_id_hex@),
    decreases rows.len(),
{
    if rows.len() > 0 {
        let rest = rows.drop_last();
        let last = rows.last();
        let end = rows.len() - 1;
        law_last_row_of_a_group_counts(rest, group);
        assert(rows[end] == last);
        assert forall|i: int| 0 <= i < rest.len() implies rows[i] == #[trigger] rest[i] by {}
        if malformed_rows(rows) == 0 {
            assert forall|i: int| 0 <= i < rows.len() implies is_hex_text(
                (#[trigger] rows[i]).group_id_hex@,
            ) by {
                if i < end {
                    assert(rest[i] == rows[i]);
                }
            }
        }
        if forall|i: int| 0 <= i < rows.len() ==> is_hex_text((#[trigger] rows[i]).group_id_hex@) {
            assert forall|i: int| 0 <= i < rest.len() implies is_hex_text(
                (#[trigger] rest[i]).group_id_hex@,
            ) by {
                assert(rest[i] == rows[i]);
            }
            assert(is_hex_text(rows[end].group_id_hex@));
        }
        if !(is_hex_text(last.group_id_hex@) && hex_bytes(last.group_id_hex@) == group) {
            if let Some(epoch) = table_epoch(rows, group) {
                let i = choose|i: int|
                    0 <= i < rest.len() && is_hex_text((#[trigger] rest[i]).group_id_hex@)
                        && hex_bytes(rest[i].group_id_hex@) == group && rest[i].stalled_epoch
                        == epoch && forall|j: int|
                        i < j < rest.len() ==> !(is_hex_text((#[trigger] rest[j]).group_id_hex@)
                            && hex_bytes(rest[j].group_id_hex@) == group);
                assert(rows[i] == rest[i]);
                assert forall|j: int| i < j < rows.len() implies !(is_hex_text(
                    (#[trigger] rows[j]).group_id_hex@,
                ) && hex_bytes(rows[j].group_id_hex@) == group) by {
                    if j < end {
                        assert(rest[j] == rows[j]);
                    }
                }
            }
            if exists|i: int|
                0 <= i < rows.len() && is_hex_text((#[trigger] rows[i]).group_id_hex@) && hex_bytes(
                    rows[i].group_id_hex@,
                ) == group {
                let i = choose|i: int|
                    0 <= i < rows.len() && is_hex_text((#[trigger] rows[i]).group_id_hex@)
                        && hex_bytes(rows[i].group_id_hex@) == group;
                assert(rest[i] == rows[i]);
            }
        }
    }
}

/// A group lives exactly where it was not deleted here and the engine or a projection has it.
pub proof fn law_group_lives_until_it_is_deleted(
    group: Seq<u8>,
    locally_deleted: Seq<Seq<u8>>,
    live_engine_ids: Seq<Seq<u8>>,
    projected_ids: Seq<Seq<u8>>,
)
    ensures
        locally_deleted.contains(group) ==> !counts_as_live(
            group,
            locally_deleted,
            live_engine_ids,
            projected_ids,
        ),
        !locally_deleted.contains(group) && live_engine_ids.contains(group) ==> counts_as_live(
            group,
            locally_deleted,
            live_engine_ids,
            projected_ids,
        ),
        !locally_deleted.contains(group) && projected_ids.contains(group) ==> counts_as_live(
            group,
            locally_deleted,
            live_engine_ids,
            projected_ids,
        ),
        !live_engine_ids.contains(group) && !projected_ids.contains(group) ==> !counts_as_live(
            group,
            locally_deleted,
            live_engine_ids,
            projected_ids,
        ),
{
}

spec fn is_keyed(intent: IntentContent) -> bool {
    intent.groups.no_duplicates() && intent.groups.len() == intent.epochs.len()
}

proof fn lemma_survivors(
    queued: Seq<IntentContent>,
    live: Seq<Seq<u8>>,
    k: int,
    group: Seq<u8>,
    epoch: u64,
)
    requires
        0 <= k < queued.len(),
        is_keyed(queued[k]),
        queued[k].stalled_epoch(group) == Some(epoch),
        live.contains(group),
    ensures
        exists|i: int|
            0 <= i < survivors(queued, live).len() && (#[trigger] survivors(
                queued,
                live,
            )[i]).stalled_epoch(group) == Some(epoch),
    decreases queued.len(),
{
    let rest = queued.drop_last();
    let before = survivors(rest, live);
    let after = survivors(queued, live);
    if k < rest.len() {
        assert(rest[k] == queued[k]);
        lemma_survivors(rest, live, k, group, epoch);
        let i = choose|i: int|
            0 <= i < before.len() && (#[trigger] before[i]).stalled_epoch(group) == Some(epoch);
        assert(after[i] == before[i]);
    } else {
        lemma_survivor(queued.last(), live, group, epoch);
        assert(after[after.len() - 1].stalled_epoch(group) == Some(epoch));
    }
}

proof fn lemma_survivor(intent: IntentContent, live: Seq<Seq<u8>>, group: Seq<u8>, epoch: u64)
    requires
        is_keyed(intent),
        intent.stalled_epoch(group) == Some(epoch),
        live.contains(group),
    ensures
        survivor(Some(intent), live) matches Some(left) && left.stalled_epoch(group) == Some(epoch),
{
    law_restricted_intent_keeps_the_living(intent, live, group);
    let left = intent.restricted(live);
    assert(left.groups.contains(group));
    if left.groups.len() == 0 {
        assert(!left.groups.contains(group));
    }
}

/// Pruning the queue loses no living group: one that waited for its epoch still does.
pub proof fn law_pruning_loses_no_living_group(
    queue: QueueContent,
    live: Seq<Seq<u8>>,
    k: int,
    group: Seq<u8>,
    epoch: u64,
)
    requires
        0 <= k < queue.intents().len(),
        queue.intents()[k].groups.no_duplicates(),
        queue.intents()[k].groups.len() == queue.intents()[k].epochs.len(),
        queue.intents()[k].stalled_epoch(group) == Some(epoch),
        live.contains(group),
    ensures
        exists|i: int|
            0 <= i < live_queue(queue, live).intents().len() && (#[trigger] live_queue(
                queue,
                live,
            ).intents()[i]).stalled_epoch(group) == Some(epoch),
{
    let after = live_queue(queue, live);
    let pending = crate::client::epoch_backfill::optional_intent(queue.pending);
    let active = crate::client::epoch_backfill::optional_intent(queue.active);
    let left = survivors(queue.queued, live);
    let all = after.intents();
    if k < pending.len() {
        lemma_survivor(queue.pending->0, live, group, epoch);
        assert(all[0] == survivor(queue.pending, live)->0);
        assert(all[0].stalled_epoch(group) == Some(epoch));
    } else if k < pending.len() + active.len() {
        lemma_survivor(queue.active->0, live, group, epoch);
        let p = crate::client::epoch_backfill::optional_intent(after.pending).len() as int;
        assert(all[p] == survivor(queue.active, live)->0);
        assert(all[p].stalled_epoch(group) == Some(epoch));
    } else {
        let q = k - pending.len() - active.len();
        assert(queue.queued[q] == queue.intents()[k]);
        lemma_survivors(queue.queued, live, q, group, epoch);
        let i = choose|i: int|
            0 <= i < left.len() && (#[trigger] left[i]).stalled_epoch(group) == Some(epoch);
        let p = crate::client::epoch_backfill::optional_intent(after.pending).len() as int;
        let a = crate::client::epoch_backfill::optional_intent(after.active).len() as int;
        if survivor(queue.pending, live) is None {
            if i == 0 {
                assert(all[0] == left[0]);
            } else {
                assert(after.queued[i - 1] == left[i]);
                assert(all[p + a + i - 1] == left[i]);
            }
        } else {
            assert(after.queued[i] == left[i]);
            assert(all[p + a + i] == left[i]);
        }
    }
}

/// The inbox comes before every group, and groups go by their ids.
pub proof fn law_inbox_comes_first(left: Seq<u8>, right: Seq<u8>)
    ensures
        route_lt(RouteContent::Inbox, RouteContent::Group(left)),
        !route_lt(RouteContent::Group(left), RouteContent::Inbox),
        !route_lt(RouteContent::Inbox, RouteContent::Inbox),
        route_lt(RouteContent::Group(left), RouteContent::Group(right)) <==> bytes_lt(left, right),
{
}

/// A delivery belongs to the inbox where it welcomes this account, to a group where it is a
/// message of a known group with a full id, and to no route otherwise.
pub proof fn law_delivery_belongs_to_its_route(account_id: Seq<u8>, delivery: TransportDelivery)
    ensures
        delivery.envelope matches TransportEnvelope::Welcome { recipient } ==> delivery_route(
            account_id,
            delivery,
        ) == (if recipient.deep_view() == account_id {
            Some(RouteContent::Inbox)
        } else {
            None
        }),
        delivery.envelope matches TransportEnvelope::GroupMessage { transport_group_id }
            ==> delivery_route(account_id, delivery) == (if delivery.group_id_hint is Some
            && transport_group_id@.len() == 32 {
            Some(RouteContent::Group(transport_group_id@))
        } else {
            None
        }),
        delivery.envelope is Other ==> delivery_route(account_id, delivery) is None,
{
}

/// Each attempt counts once; it counts as failed exactly where it failed, and brings in what
/// its relays brought.
pub proof fn law_attempts_are_tallied(tally: ReconciliationTally, attempt: RouteAttempt)
    requires
        tally.attempted_routes < usize::MAX,
        tally.routes_failed < usize::MAX,
    ensures
        tally_with(tally, attempt).attempted_routes == tally.attempted_routes + 1,
        attempt is Failed ==> tally_with(tally, attempt).routes_failed == tally.routes_failed + 1,
        !(attempt is Failed) ==> tally_with(tally, attempt).routes_failed == tally.routes_failed,
        !(attempt is Reconciled) ==> tally_with(tally, attempt).relays_succeeded
            == tally.relays_succeeded && tally_with(tally, attempt).relays_failed
            == tally.relays_failed && tally_with(tally, attempt).remote_items
            == tally.remote_items && tally_with(tally, attempt).received_items
            == tally.received_items,
        attempt matches RouteAttempt::Reconciled(route) ==> {
            &&& tally.relays_succeeded + route.relays_succeeded <= usize::MAX ==> tally_with(
                tally,
                attempt,
            ).relays_succeeded == tally.relays_succeeded + route.relays_succeeded
            &&& tally.relays_failed + route.relays_failed <= usize::MAX ==> tally_with(
                tally,
                attempt,
            ).relays_failed == tally.relays_failed + route.relays_failed
            &&& tally.remote_items + route.remote_items <= usize::MAX ==> tally_with(
                tally,
                attempt,
            ).remote_items == tally.remote_items + route.remote_items
            &&& tally.received_items + route.received_items <= usize::MAX ==> tally_with(
                tally,
                attempt,
            ).received_items == tally.received_items + route.received_items
        },
{
}

/// What a pass may work on: the inbox, where it has relays, and every group with a full id.
pub proof fn law_inbox_and_full_groups_are_offered(
    inbox_endpoints: Vec<String>,
    groups: Seq<GroupRoute>,
    work: TransportReconciliationWork,
)
    ensures
        offered_work(inbox_endpoints, groups).contains(work) <==> (inbox_endpoints@.len() > 0
            && work == (TransportReconciliationWork::Inbox { endpoints: inbox_endpoints }))
            || exists|i: int|
            0 <= i < groups.len() && (#[trigger] groups[i]).transport_group_id@.len() == 32 && work
                == (TransportReconciliationWork::Group {
                transport_group_id: groups[i].transport_group_id,
                subscription: groups[i].subscription,
            }),
    decreases groups.len(),
{
    if groups.len() == 0 {
        let inbox = TransportReconciliationWork::Inbox { endpoints: inbox_endpoints };
        if inbox_endpoints@.len() > 0 {
            assert(seq![inbox][0] == inbox);
        }
    } else {
        let rest = groups.drop_last();
        let last = groups.last();
        law_inbox_and_full_groups_are_offered(inbox_endpoints, rest, work);
        assert(groups[groups.len() - 1] == last);
        assert forall|i: int| 0 <= i < rest.len() implies groups[i] == #[trigger] rest[i] by {}
        let own = TransportReconciliationWork::Group {
            transport_group_id: last.transport_group_id,
            subscription: last.subscription,
        };
        lemma_push_contains(offered_work(inbox_endpoints, rest), own, work);
        if exists|i: int|
            0 <= i < rest.len() && (#[trigger] rest[i]).transport_group_id@.len() == 32 && work == (
            TransportReconciliationWork::Group {
                transport_group_id: rest[i].transport_group_id,
                subscription: rest[i].subscription,
            }) {
            let i = choose|i: int|
                0 <= i < rest.len() && (#[trigger] rest[i]).transport_group_id@.len() == 32 && work
                    == (TransportReconciliationWork::Group {
                    transport_group_id: rest[i].transport_group_id,
                    subscription: rest[i].subscription,
                });
            assert(groups[i] == rest[i]);
        }
        if exists|i: int|
            0 <= i < groups.len() && (#[trigger] groups[i]).transport_group_id@.len() == 32 && work
                == (TransportReconciliationWork::Group {
                transport_group_id: groups[i].transport_group_id,
                subscription: groups[i].subscription,
            }) {
            let i = choose|i: int|
                0 <= i < groups.len() && (#[trigger] groups[i]).transport_group_id@.len() == 32
                    && work == (TransportReconciliationWork::Group {
                    transport_group_id: groups[i].transport_group_id,
                    subscription: groups[i].subscription,
                });
            if i < rest.len() {
                assert(rest[i] == groups[i]);
            }
        }
    }
}

/// A pass works on no more routes than it may, and on all that are offered where these are
/// no more than that.
pub proof fn law_pass_works_on_all_it_may(
    inbox_endpoints: Vec<String>,
    groups: Seq<GroupRoute>,
    cursor: Option<RouteContent>,
)
    ensures
        ({
            let offered = offered_work(inbox_endpoints, groups);
            let work = pass_work(inbox_endpoints, groups, cursor);
            let most = TRANSPORT_RECONCILIATION_MAX_ROUTES_PER_PASS;
            &&& work.len() == (if offered.len() <= most {
                offered.len() as int
            } else {
                most as int
            })
            &&& offered.len() <= most ==> work.to_multiset() == offered.to_multiset()
            &&& forall|i: int|
                0 <= i < work.len() ==> offered.contains(#[trigger] work[i])
        }),
{
    broadcast use group_to_multiset_ensures;

    let offered = offered_work(inbox_endpoints, groups);
    let sorted = stable_sorted(offered);
    let start = work_start(sorted, cursor, 0);
    lemma_stable_sorted(offered);
    lemma_work_start(sorted, cursor, 0);
    let turned = rotated(sorted, start);
    assert(sorted.take(start) + sorted.skip(start) =~= sorted);
    vstd::seq_lib::lemma_multiset_commutative(sorted.take(start), sorted.skip(start));
    vstd::seq_lib::lemma_multiset_commutative(sorted.skip(start), sorted.take(start));
    assert(turned.to_multiset() =~= offered.to_multiset());
    crate::order::lemma_same_elements(turned, offered);
    let work = pass_work(inbox_endpoints, groups, cursor);
    assert forall|i: int| 0 <= i < work.len() implies offered.contains(#[trigger] work[i]) by {
        assert(work[i] == turned[i]);
        assert(turned.contains(turned[i]));
    }
}

proof fn lemma_work_start(
    work: Seq<TransportReconciliationWork>,
    cursor: Option<RouteContent>,
    from: int,
)
    requires
        0 <= from <= work.len(),
    ensures
        0 <= work_start(work, cursor, from) <= work.len(),
    decreases work.len() - from,
{
    if cursor is Some && from < work.len() {
        lemma_work_start(work, cursor, from + 1);
    }
}

/// A deferred intent goes behind those that wait: the first of them is next, and it is next
/// itself only where none waits.
pub proof fn law_deferred_intent_goes_last(queue: QueueContent, intent: IntentContent)
    ensures
        queue.queued.len() > 0 ==> queue.deferred(intent).next() == Some(queue.queued[0])
            && queue.deferred(intent).queued.last() == intent,
        queue.queued.len() == 0 ==> queue.deferred(intent).next() == Some(intent),
        queue.deferred(intent).queued.len() == queue.queued.len(),
        queue.deferred(intent).active == queue.active,
        queue.deferred(intent).retry_not_before_ms == queue.retry_not_before_ms,
{
}

proof fn lemma_armed_unknown(
    pending: Option<IntentContent>,
    attempt_id: Seq<char>,
    groups: Seq<Seq<u8>>,
    epochs: Seq<u64>,
    known: Seq<Seq<u8>>,
    group: Seq<u8>,
)
    requires
        groups.no_duplicates(),
        groups.len() == epochs.len(),
        pending matches Some(intent) ==> is_keyed(intent),
    ensures
        armed_unknown(pending, attempt_id, groups, epochs, known) matches Some(intent) ==> is_keyed(
            intent,
        ),
        groups.contains(group) && !known.contains(group) ==> (armed_unknown(
            pending,
            attempt_id,
            groups,
            epochs,
            known,
        ) matches Some(intent) && intent.stalled_epoch(group) == Some(
            epochs[groups.index_of(group)],
        )),
        known.contains(group) || !groups.contains(group) ==> (pending matches Some(held) ==> (
        armed_unknown(pending, attempt_id, groups, epochs, known) matches Some(intent)
            && intent.stalled_epoch(group) == held.stalled_epoch(group))),
    decreases groups.len(),
{
    if groups.len() > 0 {
        let rest = groups.drop_last();
        let rest_epochs = epochs.drop_last();
        let last = groups.last();
        lemma_armed_unknown(pending, attempt_id, rest, rest_epochs, known, group);
        assert(groups =~= rest.push(last));
        lemma_push_contains(rest, last, group);
        assert(groups[groups.len() - 1] == last);
        assert(!rest.contains(last)) by {
            if rest.contains(last) {
                let i = choose|i: int| 0 <= i < rest.len() && rest[i] == last;
                assert(groups[i] == groups[groups.len() - 1]);
            }
        }
        if rest.contains(group) {
            let i = rest.index_of(group);
            let j = groups.index_of(group);
            assert(groups[i] == groups[j]);
            assert(epochs[j] == rest_epochs[i]);
        } else if group == last {
            let j = groups.index_of(group);
            assert(groups[j] == groups[groups.len() - 1]);
        }
        if !known.contains(last) {
            let before = armed_unknown(pending, attempt_id, rest, rest_epochs, known);
            let held = match before {
                Some(intent) => intent,
                None => IntentContent::fresh(attempt_id),
            };
            assert(is_keyed(held));
            law_armed_group_has_its_epoch(held, last, epochs.last(), group);
            if !held.groups.contains(last) {
                lemma_map_push(held.groups, held.epochs, last, epochs.last());
            }
        }
    }
}

/// A stored group that lives and does not wait yet waits for its stored epoch once the stored
/// groups join the queue.
pub proof fn law_stored_group_joins_the_queue(
    queue: QueueContent,
    groups: Seq<Seq<u8>>,
    epochs: Seq<u64>,
    live: Seq<Seq<u8>>,
    attempt_id: Seq<char>,
    k: int,
)
    requires
        groups.no_duplicates(),
        groups.len() == epochs.len(),
        0 <= k < groups.len(),
        live.contains(groups[k]),
        !queue_groups(live_queue(queue, live)).contains(groups[k]),
        live_queue(queue, live).pending matches Some(intent) ==> intent.groups.no_duplicates()
            && intent.groups.len() == intent.epochs.len(),
    ensures
        joined_queue(queue, groups, epochs, live, attempt_id).pending matches Some(intent)
            && intent.stalled_epoch(groups[k]) == Some(epochs[k]),
{
    let kept = kept_keys(groups, live);
    let kept_epochs = kept_values(groups, epochs, live);
    let group = groups[k];
    lemma_kept(groups, epochs, live);
    assert(groups.contains(group));
    assert(kept.contains(group));
    lemma_lookup(groups, epochs, k);
    let i = kept.index_of(group);
    lemma_lookup(kept, kept_epochs, i);
    assert(pair_lookup(kept, kept_epochs, group) == pair_lookup(groups, epochs, group));
    if queue.has_pending() {
        lemma_armed_unknown(
            live_queue(queue, live).pending,
            attempt_id,
            kept,
            kept_epochs,
            queue_groups(live_queue(queue, live)),
            group,
        );
    }
}

proof fn lemma_lookup(keys: Seq<Seq<u8>>, values: Seq<u64>, i: int)
    requires
        keys.no_duplicates(),
        keys.len() == values.len(),
        0 <= i < keys.len(),
    ensures
        pair_lookup(keys, values, keys[i]) == Some(values[i]),
        keys.index_of(keys[i]) == i,
{
    assert(keys.contains(keys[i]));
    assert(keys[keys.index_of(keys[i])] == keys[i]);
}

/// The groups of a queue are exactly those of the intents in it.
pub proof fn law_queue_has_the_groups_of_its_intents(queue: QueueContent, group: Seq<u8>)
    ensures
        queue_groups(queue).contains(group) <==> exists|i: int|
            0 <= i < queue.intents().len() && (#[trigger] queue.intents()[i]).groups.contains(
                group,
            ),
{
    lemma_all_groups(queue.intents(), group);
}

proof fn lemma_all_groups(intents: Seq<IntentContent>, group: Seq<u8>)
    ensures
        all_groups(intents).contains(group) <==> exists|i: int|
            0 <= i < intents.len() && (#[trigger] intents[i]).groups.contains(group),
    decreases intents.len(),
{
    if intents.len() > 0 {
        let rest = intents.drop_last();
        lemma_all_groups(rest, group);
        lemma_extend_unique(all_groups(rest), intents.last().groups);
        assert(intents[intents.len() - 1] == intents.last());
        if all_groups(rest).contains(group) {
            let i = choose|i: int|
                0 <= i < rest.len() && (#[trigger] rest[i]).groups.contains(group);
            assert(intents[i] == rest[i]);
        }
        if exists|i: int| 0 <= i < intents.len() && (#[trigger] intents[i]).groups.contains(group) {
            let i = choose|i: int|
                0 <= i < intents.len() && (#[trigger] intents[i]).groups.contains(group);
            if i < rest.len() {
                assert(rest[i] == intents[i]);
            }
        }
    }
}

proof fn lemma_start_is_after_the_cursor(
    work: Seq<TransportReconciliationWork>,
    route: RouteContent,
    from: int,
)
    requires
        0 <= from <= work.len(),
        forall|i: int|
            0 <= i < from ==> !optional_route_lt(Some(route), (#[trigger] work[i]).spec_route()),
    ensures
        ({
            let start = work_start(work, Some(route), from);
            &&& 0 <= start <= work.len()
            &&& forall|i: int|
                0 <= i < start ==> !optional_route_lt(
                    Some(route),
                    (#[trigger] work[i]).spec_route(),
                )
            &&& (exists|i: int|
                0 <= i < work.len() && optional_route_lt(
                    Some(route),
                    (#[trigger] work[i]).spec_route(),
                )) ==> start < work.len() && optional_route_lt(
                Some(route),
                work[start].spec_route(),
            )
            &&& (forall|i: int|
                0 <= i < work.len() ==> !optional_route_lt(
                    Some(route),
                    (#[trigger] work[i]).spec_route(),
                )) ==> start == 0
        }),
    decreases work.len() - from,
{
    if from < work.len() && !optional_route_lt(Some(route), work[from].spec_route()) {
        lemma_start_is_after_the_cursor(work, route, from + 1);
    }
}

/// A pass begins with the first route behind the cursor, and at the front where none is
/// behind it: what it begins with is not preceded by another that it could begin with.
pub proof fn law_pass_begins_behind_the_cursor(
    inbox_endpoints: Vec<String>,
    groups: Seq<GroupRoute>,
    route: RouteContent,
    other: TransportReconciliationWork,
)
    requires
        offered_work(inbox_endpoints, groups).contains(other),
    ensures
        ({
            let work = pass_work(inbox_endpoints, groups, Some(route));
            &&& work.len() > 0
            &&& optional_route_lt(Some(route), other.spec_route()) ==> optional_route_lt(
                Some(route),
                work[0].spec_route(),
            ) && !optional_route_lt(other.spec_route(), work[0].spec_route())
            &&& !optional_route_lt(Some(route), work[0].spec_route()) ==> !optional_route_lt(
                other.spec_route(),
                work[0].spec_route(),
            )
        }),
{
    broadcast use group_to_multiset_ensures;

    let offered = offered_work(inbox_endpoints, groups);
    let sorted = stable_sorted(offered);
    lemma_stable_sorted(offered);
    crate::order::lemma_same_elements(sorted, offered);
    assert(sorted.contains(other));
    let k = choose|k: int| 0 <= k < sorted.len() && sorted[k] == other;
    lemma_start_is_after_the_cursor(sorted, route, 0);
    let start = work_start(sorted, Some(route), 0);
    if optional_route_lt(Some(route), other.spec_route()) {
        assert(optional_route_lt(Some(route), sorted[k].spec_route()));
    }
    if start == sorted.len() {
        assert(forall|i: int|
            0 <= i < sorted.len() ==> !optional_route_lt(
                Some(route),
                (#[trigger] sorted[i]).spec_route(),
            ));
    }
    let first = pass_work(inbox_endpoints, groups, Some(route))[0];
    assert(first == sorted[start]);
    if start < k {
        assert(!sorted[k].before(&sorted[start]));
    } else if start == k {
        lemma_route_before_itself(other.spec_route());
    }
}

proof fn lemma_route_before_itself(route: Option<RouteContent>)
    ensures
        !optional_route_lt(route, route),
{
    if let Some(RouteContent::Group(id)) = route {
        crate::order::lemma_bytes_lt_irreflexive(id);
    }
}

/// The deadline that is stored is the time of the clock when what is left of the wait is
/// over; none is stored where nothing is left.
pub proof fn law_stored_deadline_is_when_the_wait_is_over(
    queue: QueueContent,
    now_ms: u64,
    unix_now_secs: u64,
)
    ensures
        journal_deadline(queue, now_ms, unix_now_secs) is Some <==> (
        queue.retry_not_before_ms matches Some(not_before) && not_before > now_ms),
        queue.retry_not_before_ms matches Some(not_before) ==> (not_before > now_ms
            && unix_now_secs * 1000 + (not_before - now_ms) <= u64::MAX ==> journal_deadline(
            queue,
            now_ms,
            unix_now_secs,
        ) == Some((unix_now_secs * 1000 + (not_before - now_ms)) as u64)),
{
}

} // verus!
