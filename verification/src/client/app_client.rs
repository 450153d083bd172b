//! The in-memory state of an account client: what it has seen, projected and
//! still owes to storage and to its caller.

use crate::client::cursor::{cursor_spec, next_transport_cursor, CursorPersistence};
use crate::client::drain::DeliveryIngest;
use crate::client::epoch_backfill::EpochBackfillQueue;
use crate::client::events::{
    application_event_id, event_group, event_group_id, outbox_key, GroupEvent,
};
use crate::client::observe::{IngestOutcome, OutcomeContent};
use crate::client::summary::{
    EpochStallEscalation, SlotsContent, SummaryContent, SummarySlots, SyncSummary,
};
use crate::client::visibility::{
    batches_without, finish_durably_acknowledged_account_visibility_batches, has_staged_account_visibility_batches,
    kind_ids, records_event, AccountVisibilityBatch, AccountVisibilityRecordKind, PendingAccountVisibilityLease,
};
use crate::collections::{copy_list, dropped_keys, Key, KeyMap, KeySet};
use crate::ids::{BatchId, GroupId, MessageId};
use crate::order::{extend_unique, push_unique};
use crate::text::{hex_encode, hex_text, same_text};
use vstd::prelude::*;

verus! {

/// The state of an account client.
#[derive(Debug)]
pub struct AppClient {
    pub label: String,
    pub cursor_policy: CursorPersistence,
    /// The deliveries that were ingested, in order.
    pub seen_events: KeySet<String>,
    /// How many of them storage does not know yet.
    pub pending_seen_event_count: usize,
    pub last_transport_timestamp: Option<u64>,
    pub checkpointed_transport_timestamp: Option<u64>,
    pub slots: SummarySlots,
    pub visibility: Option<PendingAccountVisibilityLease>,
    pub backfill: EpochBackfillQueue,
    pub pending_application_event_acks: KeySet<MessageId>,
    pub pending_local_group_deletion_frontier_clears: KeyMap<String, u64>,
    pub pending_group_projection_updates: KeySet<String>,
    pub pending_convergence_groups: KeySet<GroupId>,
    pub delivery_overflow_recovery_pending: bool,
    pub delivery_overflow_recovery_marker_token: Option<u64>,
    pub checkpoint_route_refresh_recomputes: u64,
}

/// A stored deletion frontier that an event crossed.
#[derive(Debug, PartialEq, Eq)]
pub struct FrontierClear {
    pub group_id_hex: String,
    pub frontier: u64,
}

/// What one save writes and acknowledges.
#[derive(Debug, PartialEq, Eq)]
pub struct StateDelta {
    pub seen_events: Vec<String>,
    pub last_transport_timestamp: Option<u64>,
    pub dirty_groups: Vec<String>,
    pub frontiers_to_clear: Vec<FrontierClear>,
    pub application_event_acks: Vec<MessageId>,
    pub visibility_batch_acks: Vec<BatchId>,
}

/// The content of a [`FrontierClear`].
pub open spec fn frontier_content(clear: FrontierClear) -> (Seq<char>, u64) {
    (clear.group_id_hex@, clear.frontier)
}

/// The staged identifiers of a lease.
pub open spec fn staged_ids(slot: Option<PendingAccountVisibilityLease>) -> Seq<Seq<u8>> {
    match slot {
        Some(pending) => pending.staged_batch_ids.deep_view(),
        None => Seq::empty(),
    }
}

/// The set of acknowledgements with that of an event, where it has one.
pub open spec fn acknowledged(acks: Seq<Seq<u8>>, key: Option<Seq<u8>>) -> Seq<Seq<u8>> {
    match key {
        Some(id) => push_unique(acks, id),
        None => acks,
    }
}

/// The groups to converge after the outcome of an ingest: buffered input wakes its
/// group.
pub open spec fn woken_by(groups: Seq<Seq<u8>>, outcome: OutcomeContent) -> Seq<Seq<u8>> {
    match outcome {
        OutcomeContent::Buffered(group) => push_unique(groups, group),
        _ => groups,
    }
}

/// How a lease changes when storage acknowledged batches of it: they leave it, all
/// others stay under the same lease and operation, and a lease without batches ends.
pub open spec fn acknowledges(
    before: Option<PendingAccountVisibilityLease>,
    after: Option<PendingAccountVisibilityLease>,
    acknowledged: Seq<Seq<u8>>,
) -> bool {
    match before {
        None => after is None,
        Some(held) => if acknowledged.len() == 0 {
            after == before
        } else {
            let left = batches_without(held.batches@, acknowledged);
            if left.len() == 0 {
                after is None
            } else {
                &&& after matches Some(kept)
                &&& kept.batches@ == left
                &&& kept.lease == held.lease
                &&& kept.projection_operation_id == held.projection_operation_id
                &&& kept.staged_batch_ids.deep_view() == dropped_keys(
                    held.staged_batch_ids.deep_view(),
                    acknowledged,
                )
            }
        },
    }
}

/// A commit takes nothing out of a lease but what storage acknowledged: every other
/// batch stays leased, under the same lease and operation.
pub proof fn law_unacknowledged_batch_stays_leased(
    before: Option<PendingAccountVisibilityLease>,
    after: Option<PendingAccountVisibilityLease>,
    acknowledged: Seq<Seq<u8>>,
    i: int,
)
    requires
        acknowledges(before, after, acknowledged),
        before is Some,
        0 <= i < before->0.batches@.len(),
        !acknowledged.contains(before->0.batches@[i].batch_id.deep_view()),
    ensures
        after is Some,
        after->0.batches@.contains(before->0.batches@[i]),
        after->0.lease == before->0.lease,
        after->0.projection_operation_id == before->0.projection_operation_id,
{
    lemma_batch_left(before->0.batches@, acknowledged, i);
    if acknowledged.len() == 0 {
        assert(after->0.batches@[i] == before->0.batches@[i]);
    }
}

proof fn lemma_batch_left(
    batches: Seq<AccountVisibilityBatch>,
    acknowledged: Seq<Seq<u8>>,
    i: int,
)
    requires
        0 <= i < batches.len(),
        !acknowledged.contains(batches[i].batch_id.deep_view()),
    ensures
        batches_without(batches, acknowledged).contains(batches[i]),
    decreases batches.len(),
{
    let left = batches_without(batches, acknowledged);
    if i == batches.len() - 1 {
        assert(left[left.len() - 1] == batches[i]);
    } else {
        lemma_batch_left(batches.drop_last(), acknowledged, i);
        let rest = batches_without(batches.drop_last(), acknowledged);
        let k = choose|k: int| 0 <= k < rest.len() && rest[k] == batches[i];
        assert(left[k] == batches[i]);
    }
}

/// How a lease changes when the records of one kind of the current operation are
/// staged.
pub open spec fn stages_kind(
    before: Option<PendingAccountVisibilityLease>,
    after: Option<PendingAccountVisibilityLease>,
    kind: AccountVisibilityRecordKind,
) -> bool {
    match (before, after) {
        (None, None) => true,
        (Some(held), Some(staged)) => {
            &&& staged == (PendingAccountVisibilityLease {
                staged_batch_ids: staged.staged_batch_ids,
                ..held
            })
            &&& staged.staged_batch_ids.deep_view() == (match held.projection_operation_id {
                Some(operation) => extend_unique(
                    held.staged_batch_ids.deep_view(),
                    kind_ids(held.batches@, operation.deep_view(), kind),
                ),
                None => held.staged_batch_ids.deep_view(),
            })
        },
        _ => false,
    }
}

/// How a lease changes when an event is staged.
pub open spec fn stages_event(
    before: Option<PendingAccountVisibilityLease>,
    after: Option<PendingAccountVisibilityLease>,
    event: GroupEvent,
) -> bool {
    match (before, after) {
        (None, None) => true,
        (Some(old_lease), Some(new_lease)) => {
            &&& new_lease.lease == old_lease.lease
            &&& new_lease.batches == old_lease.batches
            &&& new_lease.projection_operation_id == old_lease.projection_operation_id
            &&& match old_lease.projection_operation_id {
                None => new_lease.staged_batch_ids == old_lease.staged_batch_ids,
                Some(operation) => {
                    let staged = old_lease.staged_batch_ids.deep_view();
                    ||| exists|i: int|
                        {
                            &&& 0 <= i < old_lease.batches@.len()
                            &&& #[trigger] records_event(
                                old_lease.batches@[i],
                                operation.deep_view(),
                                staged,
                                event,
                            )
                            &&& forall|j: int|
                                0 <= j < i ==> !records_event(
                                    #[trigger] old_lease.batches@[j],
                                    operation.deep_view(),
                                    staged,
                                    event,
                                )
                            &&& new_lease.staged_batch_ids.deep_view() == staged.push(
                                old_lease.batches@[i].batch_id.deep_view(),
                            )
                        }
                    ||| {
                        &&& forall|j: int|
                            0 <= j < old_lease.batches@.len() ==> !records_event(
                                #[trigger] old_lease.batches@[j],
                                operation.deep_view(),
                                staged,
                                event,
                            )
                        &&& new_lease.staged_batch_ids == old_lease.staged_batch_ids
                    }
                },
            }
        },
        _ => false,
    }
}

impl AppClient {
    /// The deliveries that storage does not know are among those seen.
    pub open spec fn wf(&self) -> bool {
        self.pending_seen_event_count <= self.seen_events.sequence().len()
    }

    /// Whether the deliveries that storage does not know are among those seen.
    pub fn is_well_formed(&self) -> (formed: bool)
        ensures
            formed == self.wf(),
    {
        self.pending_seen_event_count <= self.seen_events.len()
    }

    /// Remembers whether the replay queue is still to be written.
    pub fn note_journal_write(&mut self, written: bool)
        ensures
            *final(self) == (AppClient { backfill: final(self).backfill, ..*old(self) }),
            final(self).backfill == (EpochBackfillQueue {
                journal_dirty: !written,
                ..old(self).backfill
            }),
    {
        self.backfill.journal_dirty = !written;
    }

    /// A client without history.
    pub fn new(label: String, cursor_policy: CursorPersistence, cursor: Option<u64>) -> (client: Self)
        ensures
            client.wf(),
            client.label == label,
            client.cursor_policy == cursor_policy,
            client.last_transport_timestamp == cursor,
            client.checkpointed_transport_timestamp == cursor,
            client.seen_events.sequence().len() == 0,
            client.pending_seen_event_count == 0,
            client.slots@ == (SlotsContent {
                uncheckpointed: None,
                checkpointed: None,
                escalations: Seq::empty(),
                refresh: false,
                uncheckpointed_refresh: false,
                applied: SummaryContent::nothing(),
            }),
            client.visibility is None,
            !client.backfill.deep_view().has_pending(),
            !client.delivery_overflow_recovery_pending,
            client.delivery_overflow_recovery_marker_token is None,
            client.pending_application_event_acks.sequence().len() == 0,
            client.pending_local_group_deletion_frontier_clears.sequence().len() == 0,
            client.pending_group_projection_updates.sequence().len() == 0,
            client.pending_convergence_groups.sequence().len() == 0,
            client.checkpoint_route_refresh_recomputes == 0,
    {
        AppClient {
            label,
            cursor_policy,
            seen_events: KeySet::new(),
            pending_seen_event_count: 0,
            last_transport_timestamp: cursor,
            checkpointed_transport_timestamp: cursor,
            slots: SummarySlots::new(),
            visibility: None,
            backfill: EpochBackfillQueue::new(),
            pending_application_event_acks: KeySet::new(),
            pending_local_group_deletion_frontier_clears: KeyMap::new(),
            pending_group_projection_updates: KeySet::new(),
            pending_convergence_groups: KeySet::new(),
            delivery_overflow_recovery_pending: false,
            delivery_overflow_recovery_marker_token: None,
            checkpoint_route_refresh_recomputes: 0,
        }
    }

    /// Marks a delivery as seen, once.
    pub fn remember_seen_event(&mut self, event_id_hex: String)
        requires
            old(self).wf(),
        ensures
            final(self).wf(),
            *final(self) == (AppClient {
                seen_events: final(self).seen_events,
                pending_seen_event_count: final(self).pending_seen_event_count,
                ..*old(self)
            }),
            final(self).seen_events.sequence() == push_unique(
                old(self).seen_events.sequence(),
                event_id_hex@,
            ),
            final(self).pending_seen_event_count == old(self).pending_seen_event_count + (
            if old(self).seen_events.spec_contains(event_id_hex@) {
                0int
            } else {
                1int
            }),
    {
        let before: usize = self.seen_events.len();
        let fresh = self.seen_events.insert(event_id_hex);
        let after: usize = self.seen_events.len();
        if fresh {
            self.pending_seen_event_count = self.pending_seen_event_count + 1;
        }
    }

    /// Whether a delivery is dropped because it was seen before.
    pub fn skips_delivery(&self, event_id_hex: &String) -> (skips: bool)
        ensures
            skips == self.seen_events.spec_contains(event_id_hex@),
    {
        self.seen_events.contains(event_id_hex)
    }

    /// Whether a delivery is the relay's echo of what this account published.
    pub fn is_own_relay_echo(
        &self,
        event_id_hex: &String,
        author: &Option<String>,
        local_account_id_hex: &str,
    ) -> (echo: bool)
        ensures
            echo == own_echo(
                self.seen_events.sequence(),
                event_id_hex@,
                author.deep_view(),
                local_account_id_hex@,
            ),
    {
        if !self.seen_events.contains(event_id_hex) {
            return false;
        }
        match author {
            Some(pubkey) => same_text(pubkey.as_str(), local_account_id_hex),
            None => false,
        }
    }

    /// Moves the cursor for an inbound message, unless a drop of the queue is
    /// known: then the floor must stay below the omission.
    pub fn remember_transport_cursor(
        &mut self,
        timestamp: u64,
        now: u64,
        max_future_skew_secs: u64,
        overflow_pending: bool,
    )
        ensures
            *final(self) == (AppClient {
                last_transport_timestamp: final(self).last_transport_timestamp,
                ..*old(self)
            }),
            overflow_pending || old(self).cursor_policy is Frozen
                ==> final(self).last_transport_timestamp == old(self).last_transport_timestamp,
            !overflow_pending && old(self).cursor_policy is Advance ==> (
            final(self).last_transport_timestamp matches Some(cursor) && cursor == cursor_spec(
                old(self).last_transport_timestamp,
                timestamp,
                now,
                max_future_skew_secs,
            )),
    {
        if overflow_pending {
            return;
        }
        self.last_transport_timestamp =
        next_transport_cursor(
            self.cursor_policy,
            self.last_transport_timestamp,
            timestamp,
            now,
            max_future_skew_secs,
        );
    }

    /// Notes the group whose convergence buffered input wakes.
    pub fn remember_buffered_convergence_outcome(&mut self, outcome: &IngestOutcome)
        ensures
            *final(self) == (AppClient {
                pending_convergence_groups: final(self).pending_convergence_groups,
                ..*old(self)
            }),
            final(self).pending_convergence_groups.sequence() == woken_by(
                old(self).pending_convergence_groups.sequence(),
                outcome.deep_view(),
            ),
    {
        match outcome {
            IngestOutcome::Buffered { group_id } => {
                let _ = self.pending_convergence_groups.insert(group_id.duplicate());
            },
            _ => {},
        }
    }

    /// Notes the groups whose convergence a batch wakes.
    pub fn remember_pending_convergence_groups(&mut self, groups: &Vec<GroupId>)
        ensures
            *final(self) == (AppClient {
                pending_convergence_groups: final(self).pending_convergence_groups,
                ..*old(self)
            }),
            final(self).pending_convergence_groups.sequence() == extend_unique(
                old(self).pending_convergence_groups.sequence(),
                groups.deep_view(),
            ),
    {
        let ghost before = self.pending_convergence_groups.sequence();
        let mut i: usize = 0;
        assert(groups.deep_view().take(0) =~= Seq::<Seq<u8>>::empty());
        while i < groups.len()
            invariant
                i <= groups@.len(),
                *self == (AppClient {
                    pending_convergence_groups: self.pending_convergence_groups,
                    ..*old(self)
                }),
                self.pending_convergence_groups.sequence() == extend_unique(
                    before,
                    groups.deep_view().take(i as int),
                ),
            decreases groups.len() - i,
        {
            assert(groups.deep_view().take(i + 1).drop_last() =~= groups.deep_view().take(
                i as int,
            ));
            let _ = self.pending_convergence_groups.insert(groups[i].clone());
            i += 1;
        }
        assert(groups.deep_view().take(groups@.len() as int) =~= groups.deep_view());
    }

    /// Hands out the groups whose convergence is due.
    pub fn take_pending_convergence_groups(&mut self) -> (groups: Vec<GroupId>)
        ensures
            groups.deep_view() == old(self).pending_convergence_groups.sequence(),
            groups.deep_view().no_duplicates(),
            *final(self) == (AppClient {
                pending_convergence_groups: final(self).pending_convergence_groups,
                ..*old(self)
            }),
            final(self).pending_convergence_groups.sequence().len() == 0,
    {
        let mut taken: KeySet<GroupId> = KeySet::new();
        core::mem::swap(&mut taken, &mut self.pending_convergence_groups);
        taken.into_list()
    }

    /// The floor from which subscriptions are rebuilt: none while a drop of the
    /// queue awaits its replay.
    pub fn subscription_rebuild_since(&self, floor: Option<u64>) -> (since: Option<u64>)
        ensures
            since == (if self.delivery_overflow_recovery_pending {
                None
            } else {
                floor
            }),
    {
        if self.delivery_overflow_recovery_pending {
            None
        } else {
            floor
        }
    }

    /// Notes a drop of the queue under its stored marker.
    pub fn observe_delivery_overflow(&mut self, marker_token: u64)
        ensures
            *final(self) == (AppClient {
                delivery_overflow_recovery_pending: true,
                delivery_overflow_recovery_marker_token: Some(marker_token),
                ..*old(self)
            }),
    {
        self.delivery_overflow_recovery_pending = true;
        self.delivery_overflow_recovery_marker_token = Some(marker_token);
    }

    /// Ends a recovery whose marker storage cleared. Where a newer marker won,
    /// that one stays authoritative.
    pub fn clear_delivery_overflow_recovery(&mut self, cleared: bool, current: Option<u64>)
        ensures
            *final(self) == (if cleared {
                AppClient {
                    delivery_overflow_recovery_pending: false,
                    delivery_overflow_recovery_marker_token: None,
                    ..*old(self)
                }
            } else {
                AppClient {
                    delivery_overflow_recovery_pending: current is Some,
                    delivery_overflow_recovery_marker_token: current,
                    ..*old(self)
                }
            }),
    {
        if cleared {
            self.delivery_overflow_recovery_pending = false;
            self.delivery_overflow_recovery_marker_token = None;
        } else {
            self.delivery_overflow_recovery_pending = current.is_some();
            self.delivery_overflow_recovery_marker_token = current;
        }
    }

    /// Prepares the acknowledgement of an event to the engine.
    pub fn prepare_pending_application_event_ack(&mut self, event: &GroupEvent)
        ensures
            *final(self) == (AppClient {
                pending_application_event_acks: final(self).pending_application_event_acks,
                ..*old(self)
            }),
            final(self).pending_application_event_acks.sequence() == acknowledged(
                old(self).pending_application_event_acks.sequence(),
                outbox_key(event.deep_view()),
            ),
    {
        match application_event_id(event) {
            Some(id) => {
                let _ = self.pending_application_event_acks.insert(id.clone());
            },
            None => {},
        }
    }

    /// Takes the acknowledgement of an event back.
    pub fn discard_pending_application_event_ack(&mut self, event: &GroupEvent)
        ensures
            *final(self) == (AppClient {
                pending_application_event_acks: final(self).pending_application_event_acks,
                ..*old(self)
            }),
            outbox_key(event.deep_view()) is None
                ==> final(self).pending_application_event_acks.sequence()
                == old(self).pending_application_event_acks.sequence(),
            forall|key: Seq<u8>| #[trigger]
                final(self).pending_application_event_acks.spec_contains(key) <==> old(self).pending_application_event_acks.spec_contains(key) && Some(key) != outbox_key(
                    event.deep_view(),
                ),
    {
        match application_event_id(event) {
            Some(id) => {
                let _ = self.pending_application_event_acks.remove(id);
            },
            None => {},
        }
    }

    /// Prepares to clear the frontier that an event crossed. Nothing is prepared
    /// until the group's prior routes are adopted; the first frontier stays.
    pub fn prepare_local_group_deletion_frontier_clear(
        &mut self,
        event: &GroupEvent,
        frontier: u64,
        prior_routes_adopted: bool,
    ) -> (prepared: bool)
        ensures
            prepared == (event_group(event.deep_view()) is Some && prior_routes_adopted),
            *final(self) == (AppClient {
                pending_local_group_deletion_frontier_clears: final(self).pending_local_group_deletion_frontier_clears,
                ..*old(self)
            }),
            forall|group: Seq<char>| #[trigger]
                final(self).pending_local_group_deletion_frontier_clears.lookup(group) == (
                if prepared && group == hex_text(event_group(event.deep_view())->Some_0) && old(self).pending_local_group_deletion_frontier_clears.lookup(group) is None {
                    Some(frontier)
                } else {
                    old(self).pending_local_group_deletion_frontier_clears.lookup(group)
                }),
    {
        match event_group_id(event) {
            None => false,
            Some(id) => {
                if !prior_routes_adopted {
                    return false;
                }
                let text = hex_encode(id.bytes.as_slice());
                if !self.pending_local_group_deletion_frontier_clears.contains(&text) {
                    let _ = self.pending_local_group_deletion_frontier_clears.insert(
                        text,
                        frontier,
                    );
                }
                true
            },
        }
    }

    /// Stages the stored record of an event whose projection is done.
    pub fn stage_current_account_visibility_event(&mut self, event: &GroupEvent)
        ensures
            *final(self) == (AppClient { visibility: final(self).visibility, ..*old(self) }),
            stages_event(old(self).visibility, final(self).visibility, *event),
    {
        match self.visibility.take() {
            Some(pending) => {
                let mut pending = pending;
                pending.stage_current_account_visibility_event(event);
                self.visibility = Some(pending);
            },
            None => {},
        }
    }

    /// Stages the records of one kind of the current operation.
    pub fn stage_current_account_visibility_record_kind(
        &mut self,
        kind: AccountVisibilityRecordKind,
    )
        ensures
            *final(self) == (AppClient { visibility: final(self).visibility, ..*old(self) }),
            stages_kind(old(self).visibility, final(self).visibility, kind),
    {
        match self.visibility.take() {
            Some(pending) => {
                let mut pending = pending;
                pending.stage_current_account_visibility_record_kind(kind);
                self.visibility = Some(pending);
            },
            None => {},
        }
    }

    /// Marks a group whose stored projection changed.
    pub fn mark_group_projection_dirty(&mut self, group_id: &GroupId)
        ensures
            *final(self) == (AppClient {
                pending_group_projection_updates: final(self).pending_group_projection_updates,
                ..*old(self)
            }),
            final(self).pending_group_projection_updates.sequence() == push_unique(
                old(self).pending_group_projection_updates.sequence(),
                hex_text(group_id.deep_view()),
            ),
    {
        let _ = self.pending_group_projection_updates.insert(
            hex_encode(group_id.bytes.as_slice()),
        );
    }

    /// Records that replays do not bring a group back. It stays until a report
    /// is handed out.
    pub fn report_epoch_stall_escalation(
        &mut self,
        group_id: &GroupId,
        stalled_epoch: u64,
        arms: u32,
    )
        ensures
            *final(self) == (AppClient { slots: final(self).slots, ..*old(self) }),
            final(self).slots@ == (SlotsContent {
                escalations: final(self).slots@.escalations,
                ..old(self).slots@
            }),
            final(self).slots@.escalations.len() == old(self).slots@.escalations.len() + 1,
            final(self).slots@.escalations.drop_last() == old(self).slots@.escalations,
            final(self).slots@.escalations.last().group_id.deep_view() == group_id.deep_view(),
            final(self).slots@.escalations.last().stalled_epoch == stalled_epoch,
            final(self).slots@.escalations.last().arms == arms,
    {
        self.slots.escalations.push(
            EpochStallEscalation { group_id: group_id.clone(), stalled_epoch, arms },
        );
        assert(self.slots.escalations@.drop_last() =~= old(self).slots.escalations@);
    }
}

/// Whether a delivery was seen and written by the local account.
pub open spec fn own_echo(
    seen: Seq<Seq<char>>,
    event_id: Seq<char>,
    author: Option<Seq<char>>,
    local_account_id_hex: Seq<char>,
) -> bool {
    seen.contains(event_id) && author == Some(local_account_id_hex)
}

impl AppClient {
    /// What the next save writes: the deliveries storage does not know, the
    /// checkpointed cursor, the changed groups, and everything it acknowledges.
    pub fn state_delta(&self) -> (delta: StateDelta)
        requires
            self.wf(),
        ensures
            delta.seen_events.deep_view() == self.seen_events.sequence().skip(
                self.seen_events.sequence().len() - self.pending_seen_event_count,
            ),
            delta.last_transport_timestamp == self.checkpointed_transport_timestamp,
            delta.dirty_groups.deep_view() == self.pending_group_projection_updates.sequence(),
            delta.application_event_acks.deep_view()
                == self.pending_application_event_acks.sequence(),
            delta.visibility_batch_acks.deep_view() == staged_ids(self.visibility),
            delta.frontiers_to_clear@.len()
                == self.pending_local_group_deletion_frontier_clears.sequence().len(),
            forall|i: int|
                0 <= i < delta.frontiers_to_clear@.len() ==> frontier_content(
                    #[trigger] delta.frontiers_to_clear@[i],
                ) == (
                    self.pending_local_group_deletion_frontier_clears.sequence()[i],
                    self.pending_local_group_deletion_frontier_clears.value_sequence()[i],
                ),
    {
        let total: usize = self.seen_events.len();
        let start: usize = total - self.pending_seen_event_count;
        let mut seen_events: Vec<String> = Vec::new();
        let mut i: usize = start;
        let ghost all = self.seen_events.sequence();
        while i < total
            invariant
                start <= i <= total,
                total == all.len(),
                all == self.seen_events.sequence(),
                seen_events@.len() == i - start,
                forall|j: int|
                    0 <= j < i - start ==> (#[trigger] seen_events@[j])@ == all[start + j],
            decreases total - i,
        {
            seen_events.push(self.seen_events.key_at(i).clone());
            i += 1;
        }
        assert(seen_events.deep_view() =~= all.skip(start as int));
        let mut frontiers_to_clear: Vec<FrontierClear> = Vec::new();
        let clears: usize = self.pending_local_group_deletion_frontier_clears.len();
        let mut k: usize = 0;
        while k < clears
            invariant
                k <= clears,
                clears == self.pending_local_group_deletion_frontier_clears.sequence().len(),
                clears == self.pending_local_group_deletion_frontier_clears.value_sequence().len(),
                frontiers_to_clear@.len() == k,
                forall|j: int|
                    0 <= j < k ==> frontier_content(#[trigger] frontiers_to_clear@[j]) == (
                        self.pending_local_group_deletion_frontier_clears.sequence()[j],
                        self.pending_local_group_deletion_frontier_clears.value_sequence()[j],
                    ),
            decreases clears - k,
        {
            frontiers_to_clear.push(
                FrontierClear {
                    group_id_hex: self.pending_local_group_deletion_frontier_clears.key_at(
                        k,
                    ).clone(),
                    frontier: *self.pending_local_group_deletion_frontier_clears.value_at(k),
                },
            );
            k += 1;
        }
        let visibility_batch_acks: Vec<BatchId> = match &self.visibility {
            Some(pending) => copy_list(&pending.staged_batch_ids),
            None => Vec::new(),
        };
        assert(self.visibility is None ==> visibility_batch_acks.deep_view()
            =~= Seq::<Seq<u8>>::empty());
        StateDelta {
            seen_events,
            last_transport_timestamp: self.checkpointed_transport_timestamp,
            dirty_groups: self.pending_group_projection_updates.to_list(),
            frontiers_to_clear,
            application_event_acks: self.pending_application_event_acks.to_list(),
            visibility_batch_acks,
        }
    }

    /// Completes a save: everything it wrote and acknowledged is no longer owed,
    /// what it committed moves to the checkpointed slot, and the batches that storage
    /// acknowledged leave their lease while all others stay in it.
    pub fn commit_state_delta(&mut self, acknowledged_batches: &Vec<BatchId>)
        ensures
            final(self).wf(),
            *final(self) == (AppClient {
                pending_seen_event_count: 0,
                slots: final(self).slots,
                visibility: final(self).visibility,
                pending_application_event_acks: final(self).pending_application_event_acks,
                pending_local_group_deletion_frontier_clears: final(self).pending_local_group_deletion_frontier_clears,
                pending_group_projection_updates: final(self).pending_group_projection_updates,
                ..*old(self)
            }),
            final(self).slots@ == old(self).slots@.promoted(),
            final(self).pending_application_event_acks.sequence().len() == 0,
            final(self).pending_local_group_deletion_frontier_clears.sequence().len() == 0,
            final(self).pending_group_projection_updates.sequence().len() == 0,
            acknowledges(
                old(self).visibility,
                final(self).visibility,
                acknowledged_batches.deep_view(),
            ),
    {
        finish_durably_acknowledged_account_visibility_batches(
            &mut self.visibility,
            acknowledged_batches,
        );
        self.pending_seen_event_count = 0;
        self.pending_group_projection_updates = KeySet::new();
        self.pending_local_group_deletion_frontier_clears = KeyMap::new();
        self.pending_application_event_acks = KeySet::new();
        self.slots.promote_uncheckpointed_sync_visibility();
    }

    /// Whether a checkpoint has anything to commit.
    pub fn has_visibility_to_checkpoint(&self) -> (has: bool)
        ensures
            has == (self.slots@.uncheckpointed is Some || staged_ids(self.visibility).len() > 0),
    {
        self.slots.uncheckpointed.is_some() || has_staged_account_visibility_batches(
            &self.visibility,
        )
    }

    /// Begins the checkpoint of a drained prefix. Returns whether the routes must
    /// be computed again: deliveries or changed routes could have moved them.
    pub fn begin_prefix_checkpoint(&mut self, routes_dirty: bool, deliveries: u64) -> (recompute:
        bool)
        ensures
            recompute == (deliveries > 0 || routes_dirty || old(self).slots@.uncheckpointed_refresh),
            *final(self) == (AppClient {
                slots: final(self).slots,
                checkpoint_route_refresh_recomputes: final(self).checkpoint_route_refresh_recomputes,
                ..*old(self)
            }),
            final(self).slots@ == (SlotsContent {
                uncheckpointed_refresh: old(self).slots@.uncheckpointed_refresh || routes_dirty,
                ..old(self).slots@
            }),
            final(self).checkpoint_route_refresh_recomputes == (if recompute {
                crate::client::drain::saturated(old(self).checkpoint_route_refresh_recomputes + 1)
            } else {
                old(self).checkpoint_route_refresh_recomputes
            }),
    {
        self.slots.remember_uncheckpointed_runtime_group_subscription_refresh(routes_dirty);
        let recompute = deliveries > 0 || self.slots.uncheckpointed_refresh;
        if recompute {
            self.checkpoint_route_refresh_recomputes =
            self.checkpoint_route_refresh_recomputes.saturating_add(1);
        }
        recompute
    }

    /// Moves the cursor that the checkpoint stores, unless a drop of the queue is
    /// known. Returns the one before, to fall back to.
    pub fn advance_checkpoint_cursor(&mut self, routes_changed: bool, overflow_pending: bool)
        -> (before: Option<u64>)
        ensures
            before == old(self).checkpointed_transport_timestamp,
            *final(self) == (AppClient {
                slots: final(self).slots,
                checkpointed_transport_timestamp: if overflow_pending {
                    old(self).checkpointed_transport_timestamp
                } else {
                    old(self).last_transport_timestamp
                },
                ..*old(self)
            }),
            final(self).slots@ == (SlotsContent {
                uncheckpointed_refresh: old(self).slots@.uncheckpointed_refresh || routes_changed,
                ..old(self).slots@
            }),
    {
        self.slots.remember_uncheckpointed_runtime_group_subscription_refresh(routes_changed);
        let before = self.checkpointed_transport_timestamp;
        if !overflow_pending {
            self.checkpointed_transport_timestamp = self.last_transport_timestamp;
        }
        before
    }

    /// Takes back the stored cursor of a checkpoint that failed.
    pub fn revert_checkpoint_cursor(&mut self, before: Option<u64>)
        ensures
            *final(self) == (AppClient { checkpointed_transport_timestamp: before, ..*old(self) }),
    {
        self.checkpointed_transport_timestamp = before;
    }

    /// Takes in one live delivery after its projection. Returns whether a save is
    /// owed before the routes are looked at.
    pub fn settle_received_delivery(
        &mut self,
        ingest: &DeliveryIngest,
        event_id_hex: String,
        summary: SyncSummary,
        cursor_before_secs: Option<u64>,
        overflow_pending: bool,
    ) -> (save_first: bool)
        requires
            old(self).wf(),
        ensures
            final(self).wf(),
            save_first == ingest.routes_dirty,
            *final(self) == (AppClient {
                slots: final(self).slots,
                seen_events: final(self).seen_events,
                pending_seen_event_count: final(self).pending_seen_event_count,
                last_transport_timestamp: if overflow_pending {
                    cursor_before_secs
                } else {
                    old(self).last_transport_timestamp
                },
                ..*old(self)
            }),
            final(self).slots@ == (SlotsContent {
                uncheckpointed_refresh: old(self).slots@.uncheckpointed_refresh
                    || ingest.routes_dirty,
                ..old(self).slots@.retain_uncheckpointed(summary@)
            }),
            final(self).seen_events.sequence() == (if ingest.must_stay_fetchable {
                old(self).seen_events.sequence()
            } else {
                push_unique(old(self).seen_events.sequence(), event_id_hex@)
            }),
            final(self).pending_seen_event_count == old(self).pending_seen_event_count + (
            if ingest.must_stay_fetchable || old(self).seen_events.spec_contains(event_id_hex@) {
                0int
            } else {
                1int
            }),
    {
        if overflow_pending {
            self.last_transport_timestamp = cursor_before_secs;
        }
        self.slots.retain_uncheckpointed_sync_summary(summary);
        self.slots.remember_uncheckpointed_runtime_group_subscription_refresh(
            ingest.routes_dirty,
        );
        if !ingest.must_stay_fetchable {
            self.remember_seen_event(event_id_hex);
        }
        ingest.routes_dirty
    }

    /// Takes in the routes after a live delivery. Returns whether a save is owed:
    /// none ran before, or routes were retired.
    pub fn settle_refreshed_routes(
        &mut self,
        saved_first: bool,
        routing_changed: bool,
        state_pruned: bool,
    ) -> (save: bool)
        ensures
            save == (!saved_first || state_pruned),
            *final(self) == (AppClient { slots: final(self).slots, ..*old(self) }),
            final(self).slots@ == (if save {
                SlotsContent {
                    uncheckpointed_refresh: old(self).slots@.uncheckpointed_refresh
                        || routing_changed,
                    ..old(self).slots@
                }
            } else {
                SlotsContent {
                    refresh: old(self).slots@.refresh || routing_changed,
                    ..old(self).slots@
                }
            }),
    {
        if !saved_first || state_pruned {
            self.slots.remember_uncheckpointed_runtime_group_subscription_refresh(routing_changed);
            true
        } else {
            self.slots.refresh = self.slots.refresh || routing_changed;
            false
        }
    }
}

/// A delivery that was not kept stays unseen: the relay will bring it again.
pub proof fn law_unkept_delivery_stays_fetchable(
    seen: Seq<Seq<char>>,
    event_id: Seq<char>,
    must_stay_fetchable: bool,
)
    requires
        !seen.contains(event_id),
    ensures
        ({
            let after = if must_stay_fetchable {
                seen
            } else {
                push_unique(seen, event_id)
            };
            after.contains(event_id) <==> !must_stay_fetchable
        }),
{
    crate::order::lemma_push_contains(seen, event_id, event_id);
}

} // verus!
