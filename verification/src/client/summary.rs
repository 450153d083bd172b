//! What a synchronization reports, and the slots that hold reports until they
//! are handed out.

use crate::client::events::GroupEvent;
use crate::collections::Key;
use crate::error::{AppError, SyncFailureStage};
use crate::ids::GroupId;
use vstd::prelude::*;

verus! {

/// A message that was received and decoded.
#[derive(Debug, PartialEq, Eq)]
pub struct ReceivedMessage {
    pub message_id_hex: String,
    pub group_id: GroupId,
    pub sender: String,
    pub plaintext: String,
    pub kind: u64,
}

/// A change of the stored timeline, by the number under which the store keeps it.
#[derive(Clone, Copy, Debug, PartialEq, Eq, Structural)]
pub struct ProjectionUpdate {
    pub id: u64,
}

/// The report that repeated replays did not bring a group back to its tip.
#[derive(Debug, PartialEq, Eq)]
pub struct EpochStallEscalation {
    pub group_id: GroupId,
    pub stalled_epoch: u64,
    pub arms: u32,
}

/// What a synchronization applied.
#[derive(Debug, PartialEq, Eq)]
pub struct SyncSummary {
    pub joined_groups: Vec<GroupId>,
    pub messages: Vec<ReceivedMessage>,
    pub events: Vec<GroupEvent>,
    pub projection_updates: Vec<ProjectionUpdate>,
    pub epoch_stall_escalations: Vec<EpochStallEscalation>,
}

/// The content of a [`SyncSummary`].
#[verifier::ext_equal]
pub struct SummaryContent {
    pub joined_groups: Seq<GroupId>,
    pub messages: Seq<ReceivedMessage>,
    pub events: Seq<GroupEvent>,
    pub projection_updates: Seq<ProjectionUpdate>,
    pub epoch_stall_escalations: Seq<EpochStallEscalation>,
}

impl View for SyncSummary {
    type V = SummaryContent;

    open spec fn view(&self) -> SummaryContent {
        SummaryContent {
            joined_groups: self.joined_groups@,
            messages: self.messages@,
            events: self.events@,
            projection_updates: self.projection_updates@,
            epoch_stall_escalations: self.epoch_stall_escalations@,
        }
    }
}

impl SummaryContent {
    /// The report of nothing.
    pub open spec fn nothing() -> SummaryContent {
        SummaryContent {
            joined_groups: Seq::empty(),
            messages: Seq::empty(),
            events: Seq::empty(),
            projection_updates: Seq::empty(),
            epoch_stall_escalations: Seq::empty(),
        }
    }

    /// This report followed by a later one.
    pub open spec fn followed_by(self, later: SummaryContent) -> SummaryContent {
        SummaryContent {
            joined_groups: self.joined_groups + later.joined_groups,
            messages: self.messages + later.messages,
            events: self.events + later.events,
            projection_updates: self.projection_updates + later.projection_updates,
            epoch_stall_escalations: self.epoch_stall_escalations
                + later.epoch_stall_escalations,
        }
    }

    /// This report with further escalations at its end.
    pub open spec fn escalated(self, escalations: Seq<EpochStallEscalation>) -> SummaryContent {
        SummaryContent {
            epoch_stall_escalations: self.epoch_stall_escalations + escalations,
            ..self
        }
    }
}

impl Default for SyncSummary {
    fn default() -> (summary: Self)
        ensures
            summary@ == SummaryContent::nothing(),
    {
        let summary = SyncSummary {
            joined_groups: Vec::new(),
            messages: Vec::new(),
            events: Vec::new(),
            projection_updates: Vec::new(),
            epoch_stall_escalations: Vec::new(),
        };
        assert(summary@ =~= SummaryContent::nothing());
        summary
    }
}

impl SyncSummary {
    /// Whether the summary reports nothing.
    pub fn is_default(&self) -> (empty: bool)
        ensures
            empty == (self@ == SummaryContent::nothing()),
    {
        let empty = self.joined_groups.len() == 0 && self.messages.len() == 0
            && self.events.len() == 0 && self.projection_updates.len() == 0
            && self.epoch_stall_escalations.len() == 0;
        assert(empty ==> self@ =~= SummaryContent::nothing());
        empty
    }

    /// Appends a later summary.
    pub fn merge(&mut self, other: SyncSummary)
        ensures
            final(self)@ == old(self)@.followed_by(other@),
    {
        let mut other = other;
        self.joined_groups.append(&mut other.joined_groups);
        self.messages.append(&mut other.messages);
        self.events.append(&mut other.events);
        self.projection_updates.append(&mut other.projection_updates);
        self.epoch_stall_escalations.append(&mut other.epoch_stall_escalations);
    }

    /// Takes the content and leaves the report of nothing.
    pub fn take(&mut self) -> (taken: SyncSummary)
        ensures
            taken == *old(self),
            final(self)@ == SummaryContent::nothing(),
    {
        let mut taken = SyncSummary::default();
        core::mem::swap(&mut taken, self);
        taken
    }

    /// Drops every message with the given identifier.
    pub fn drop_message(&mut self, message_id_hex: &String)
        ensures
            final(self)@ == (SummaryContent {
                messages: without_message(old(self)@.messages, message_id_hex@),
                ..old(self)@
            }),
    {
        let mut source: Vec<ReceivedMessage> = Vec::new();
        core::mem::swap(&mut source, &mut self.messages);
        let ghost all = source@;
        let mut reversed: Vec<ReceivedMessage> = Vec::new();
        while source.len() > 0
            invariant
                source@ == all.take(source@.len() as int),
                source@.len() <= all.len(),
                reversed@ == all.skip(source@.len() as int).reverse(),
            decreases source.len(),
        {
            let ghost n = source@.len() as int;
            let message = source.pop().unwrap();
            reversed.push(message);
            assert(all.skip(n - 1).reverse() =~= all.skip(n).reverse().push(all[n - 1]));
            assert(source@ =~= all.take(n - 1));
        }
        assert(all.skip(0) =~= all);
        let mut kept: Vec<ReceivedMessage> = Vec::new();
        assert(all.take(0) =~= Seq::<ReceivedMessage>::empty());
        assert(all.skip(0).reverse() =~= reversed@);
        while reversed.len() > 0
            invariant
                reversed@.len() <= all.len(),
                reversed@ == all.skip(all.len() - reversed@.len()).reverse(),
                kept@ == without_message(all.take(all.len() - reversed@.len()), message_id_hex@),
            decreases reversed.len(),
        {
            let ghost done = all.len() - reversed@.len();
            let message = reversed.pop().unwrap();
            assert(message == all[done]);
            assert(all.take(done + 1).drop_last() =~= all.take(done));
            assert(reversed@ =~= all.skip(done + 1).reverse());
            if !message.message_id_hex.same(message_id_hex) {
                kept.push(message);
            }
        }
        assert(all.take(all.len() as int) =~= all);
        self.messages = kept;
    }
}

/// The messages whose identifier differs from the given one, in order.
pub open spec fn without_message(
    messages: Seq<ReceivedMessage>,
    message_id_hex: Seq<char>,
) -> Seq<ReceivedMessage>
    decreases messages.len(),
{
    if messages.len() == 0 {
        messages
    } else {
        let rest = without_message(messages.drop_last(), message_id_hex);
        if messages.last().message_id_hex@ == message_id_hex {
            rest
        } else {
            rest.push(messages.last())
        }
    }
}

/// A synchronization that failed after applying a part.
#[derive(Debug, PartialEq, Eq)]
pub struct ClassifiedSyncFailure {
    pub partial_summary: SyncSummary,
    pub source: AppError,
    pub stage: SyncFailureStage,
}

/// A synchronization that failed after applying a part, as callers see it.
#[derive(Debug, PartialEq, Eq)]
pub struct SyncFailure {
    pub partial_summary: SyncSummary,
    pub source: AppError,
}

impl ClassifiedSyncFailure {
    pub fn at_stage(partial_summary: SyncSummary, source: AppError, stage: SyncFailureStage)
        -> (failure: Self)
        ensures
            failure == (ClassifiedSyncFailure { partial_summary, source, stage }),
    {
        ClassifiedSyncFailure { partial_summary, source, stage }
    }
}

/// Reports that were projected but not handed out.
///
/// A report first enters the uncheckpointed slot. The save that commits its
/// projection moves it to the checkpointed slot, from which it is handed out
/// once. An occupied slot with an empty report is a wake-up, not nothing.
#[derive(Debug, PartialEq, Eq)]
pub struct SummarySlots {
    pub uncheckpointed: Option<SyncSummary>,
    pub checkpointed: Option<SyncSummary>,
    pub escalations: Vec<EpochStallEscalation>,
    pub refresh: bool,
    pub uncheckpointed_refresh: bool,
    pub applied: SyncSummary,
}

/// The content of [`SummarySlots`].
#[verifier::ext_equal]
pub struct SlotsContent {
    pub uncheckpointed: Option<SummaryContent>,
    pub checkpointed: Option<SummaryContent>,
    pub escalations: Seq<EpochStallEscalation>,
    pub refresh: bool,
    pub uncheckpointed_refresh: bool,
    pub applied: SummaryContent,
}

pub open spec fn slot_content(slot: Option<SyncSummary>) -> Option<SummaryContent> {
    match slot {
        Some(summary) => Some(summary@),
        None => None,
    }
}

impl View for SummarySlots {
    type V = SlotsContent;

    open spec fn view(&self) -> SlotsContent {
        SlotsContent {
            uncheckpointed: slot_content(self.uncheckpointed),
            checkpointed: slot_content(self.checkpointed),
            escalations: self.escalations@,
            refresh: self.refresh,
            uncheckpointed_refresh: self.uncheckpointed_refresh,
            applied: self.applied@,
        }
    }
}

/// An occupied slot grows at its end; an empty one becomes occupied.
pub open spec fn occupy(slot: Option<SummaryContent>, summary: SummaryContent) -> Option<
    SummaryContent,
> {
    match slot {
        Some(pending) => Some(pending.followed_by(summary)),
        None => Some(summary),
    }
}

impl SlotsContent {
    pub open spec fn retain_uncheckpointed(self, summary: SummaryContent) -> SlotsContent {
        SlotsContent { uncheckpointed: occupy(self.uncheckpointed, summary), ..self }
    }

    pub open spec fn retain_checkpointed(self, summary: SummaryContent) -> SlotsContent {
        SlotsContent { checkpointed: occupy(self.checkpointed, summary), ..self }
    }

    /// The state after a save committed everything that was projected.
    pub open spec fn promoted(self) -> SlotsContent {
        SlotsContent {
            uncheckpointed: None,
            checkpointed: match self.uncheckpointed {
                Some(summary) => occupy(self.checkpointed, summary),
                None => self.checkpointed,
            },
            refresh: self.refresh || self.uncheckpointed_refresh,
            uncheckpointed_refresh: false,
            ..self
        }
    }

    /// The state after everything checkpointed was handed out.
    pub open spec fn handed_out(self) -> SlotsContent {
        SlotsContent { checkpointed: None, escalations: Seq::empty(), ..self }
    }

    /// What a hand-out returns: the checkpointed report, or nothing, with the escalations.
    pub open spec fn report(self) -> SummaryContent {
        (match self.checkpointed {
            Some(summary) => summary,
            None => SummaryContent::nothing(),
        }).escalated(self.escalations)
    }

    /// Whether the checkpointed slot holds a report of something.
    pub open spec fn reportable(self) -> bool {
        self.checkpointed matches Some(summary) && summary != SummaryContent::nothing()
    }

    /// Everything the slots still owe their caller, in order.
    pub open spec fn owed(self) -> SummaryContent {
        let done = match self.checkpointed {
            Some(summary) => summary,
            None => SummaryContent::nothing(),
        };
        match self.uncheckpointed {
            Some(summary) => done.followed_by(summary),
            None => done,
        }
    }
}

fn merge_occupied_sync_summary(slot: &mut Option<SyncSummary>, summary: SyncSummary)
    ensures
        slot_content(*final(slot)) == occupy(slot_content(*old(slot)), summary@),
{
    match slot.take() {
        Some(pending) => {
            let mut pending = pending;
            pending.merge(summary);
            *slot = Some(pending);
        },
        None => {
            *slot = Some(summary);
        },
    }
}

impl SummarySlots {
    pub fn new() -> (slots: Self)
        ensures
            slots@ == (SlotsContent {
                uncheckpointed: None,
                checkpointed: None,
                escalations: Seq::empty(),
                refresh: false,
                uncheckpointed_refresh: false,
                applied: SummaryContent::nothing(),
            }),
    {
        SummarySlots {
            uncheckpointed: None,
            checkpointed: None,
            escalations: Vec::new(),
            refresh: false,
            uncheckpointed_refresh: false,
            applied: SyncSummary::default(),
        }
    }

    /// Keeps projected output before the next step that can fail.
    pub fn retain_uncheckpointed_sync_summary(&mut self, summary: SyncSummary)
        ensures
            final(self)@ == old(self)@.retain_uncheckpointed(summary@),
    {
        merge_occupied_sync_summary(&mut self.uncheckpointed, summary);
    }

    /// Keeps output whose projection is committed.
    pub fn retain_checkpointed_sync_summary(&mut self, summary: SyncSummary)
        ensures
            final(self)@ == old(self)@.retain_checkpointed(summary@),
    {
        merge_occupied_sync_summary(&mut self.checkpointed, summary);
    }

    /// Notes that the group subscriptions must be rebuilt once the save is done.
    pub fn remember_uncheckpointed_runtime_group_subscription_refresh(&mut self, dirty: bool)
        ensures
            final(self)@ == (SlotsContent {
                uncheckpointed_refresh: old(self)@.uncheckpointed_refresh || dirty,
                ..old(self)@
            }),
    {
        self.uncheckpointed_refresh = self.uncheckpointed_refresh || dirty;
    }

    /// Completes a checkpoint after the save committed.
    pub fn promote_uncheckpointed_sync_visibility(&mut self)
        ensures
            final(self)@ == old(self)@.promoted(),
    {
        match self.uncheckpointed.take() {
            Some(summary) => self.retain_checkpointed_sync_summary(summary),
            None => {},
        }
        self.refresh = self.refresh || self.uncheckpointed_refresh;
        self.uncheckpointed_refresh = false;
    }

    /// Moves every recorded escalation to the end of a summary.
    pub fn drain_epoch_stall_escalations(&mut self, summary: &mut SyncSummary)
        ensures
            final(summary)@ == old(summary)@.escalated(old(self)@.escalations),
            final(self)@ == (SlotsContent { escalations: Seq::empty(), ..old(self)@ }),
    {
        summary.epoch_stall_escalations.append(&mut self.escalations);
    }

    /// Hands out the checkpointed report, if the slot is occupied or an
    /// escalation waits.
    pub fn take_pending_checkpointed_sync_summary(&mut self) -> (taken: Option<SyncSummary>)
        ensures
            old(self)@.checkpointed is None && old(self)@.escalations.len() == 0 ==> taken is None
                && final(self)@ == old(self)@,
            !(old(self)@.checkpointed is None && old(self)@.escalations.len() == 0) ==> taken
                is Some && taken->Some_0@ == old(self)@.report() && final(self)@
                == old(self)@.handed_out(),
    {
        if self.checkpointed.is_none() && self.escalations.len() == 0 {
            return None;
        }
        Some(self.take_checkpointed_sync_summary_or_default())
    }

    /// Hands out the checkpointed report, or the report of nothing.
    pub fn take_checkpointed_sync_summary_or_default(&mut self) -> (summary: SyncSummary)
        ensures
            summary@ == old(self)@.report(),
            final(self)@ == old(self)@.handed_out(),
    {
        let mut summary = match self.checkpointed.take() {
            Some(summary) => summary,
            None => SyncSummary::default(),
        };
        self.drain_epoch_stall_escalations(&mut summary);
        summary
    }

    /// Hands out what an error can carry. An occupied slot that reports nothing
    /// stays occupied: it is a wake-up that an error cannot express.
    pub fn take_reportable_checkpointed_sync_summary_for_failure(&mut self) -> (summary:
        SyncSummary)
        ensures
            old(self)@.reportable() ==> summary@ == old(self)@.report() && final(self)@
                == old(self)@.handed_out(),
            !old(self)@.reportable() ==> summary@ == SummaryContent::nothing().escalated(
                old(self)@.escalations,
            ) && final(self)@ == (SlotsContent { escalations: Seq::empty(), ..old(self)@ }),
    {
        let mut summary = SyncSummary::default();
        match self.checkpointed.take() {
            Some(held) => {
                if held.is_default() {
                    self.checkpointed = Some(held);
                } else {
                    summary = held;
                }
            },
            None => {},
        }
        self.drain_epoch_stall_escalations(&mut summary);
        summary
    }

    /// Puts what is already committed before a failure's own partial summary.
    pub fn merge_checkpointed_visibility_into_failure(
        &mut self,
        failure: ClassifiedSyncFailure,
    ) -> (merged: ClassifiedSyncFailure)
        ensures
            merged.source == failure.source,
            merged.stage == failure.stage,
            old(self)@.reportable() ==> merged.partial_summary@ == old(self)@.report().followed_by(
                failure.partial_summary@,
            ) && final(self)@ == old(self)@.handed_out(),
            !old(self)@.reportable() ==> merged.partial_summary@
                == SummaryContent::nothing().escalated(old(self)@.escalations).followed_by(
                failure.partial_summary@,
            ) && final(self)@ == (SlotsContent { escalations: Seq::empty(), ..old(self)@ }),
    {
        let mut retained = self.take_reportable_checkpointed_sync_summary_for_failure();
        retained.merge(failure.partial_summary);
        ClassifiedSyncFailure {
            partial_summary: retained,
            source: failure.source,
            stage: failure.stage,
        }
    }

    /// Hands out what sends applied on the side.
    pub fn take_pending_applied_sync_summary(&mut self) -> (summary: SyncSummary)
        ensures
            summary@ == old(self)@.applied,
            final(self)@ == (SlotsContent { applied: SummaryContent::nothing(), ..old(self)@ }),
    {
        self.applied.take()
    }

    /// Whether a rebuild of the group subscriptions is due.
    pub fn has_pending_runtime_group_subscription_refresh(&self) -> (pending: bool)
        ensures
            pending == self@.refresh,
    {
        self.refresh
    }

    /// A complete rebuild of the subscriptions satisfies every older intent.
    pub fn clear_subscription_refresh(&mut self)
        ensures
            final(self)@ == (SlotsContent {
                refresh: false,
                uncheckpointed_refresh: false,
                ..old(self)@
            }),
    {
        self.refresh = false;
        self.uncheckpointed_refresh = false;
    }
}

/// A checkpoint loses and reorders nothing: what is owed is the same before and after.
pub proof fn law_promotion_keeps_what_is_owed(slots: SlotsContent)
    ensures
        slots.promoted().owed() == slots.owed(),
        slots.promoted().escalations == slots.escalations,
{
    if slots.uncheckpointed is Some && slots.checkpointed is None {
        let summary = slots.uncheckpointed->Some_0;
        assert(SummaryContent::nothing().followed_by(summary) =~= summary);
    }
}

/// A report is handed out exactly once: a second hand-out finds nothing.
pub proof fn law_hand_out_is_exactly_once(slots: SlotsContent)
    ensures
        slots.handed_out().report() == SummaryContent::nothing(),
        slots.handed_out().checkpointed is None,
        slots.handed_out().uncheckpointed == slots.uncheckpointed,
{
    assert(slots.handed_out().report() =~= SummaryContent::nothing());
}

/// What was retained and committed is what the next hand-out returns, after what
/// was already there.
pub proof fn law_retained_output_is_reported(slots: SlotsContent, summary: SummaryContent)
    requires
        slots.uncheckpointed is None,
        slots.escalations.len() == 0,
    ensures
        slots.retain_uncheckpointed(summary).promoted().report() == slots.report().followed_by(summary),
{
    assert(slots.escalations =~= Seq::empty());
    assert(slots.retain_uncheckpointed(summary).promoted().report() =~= slots.report().followed_by(
        summary,
    ));
}

/// An empty report that occupies a slot is not the same as no report.
pub proof fn law_empty_report_still_occupies(slots: SlotsContent)
    ensures
        slots.retain_checkpointed(SummaryContent::nothing()).checkpointed is Some,
        slots.retain_checkpointed(SummaryContent::nothing()).report() == slots.report(),
{
    assert(slots.retain_checkpointed(SummaryContent::nothing()).report() =~= slots.report());
}

} // verus!
