//! Batches of account effects that are stored before they are projected, and the
//! staging of their acknowledgements.

use crate::client::events::GroupEvent;
use crate::client::observe::{IngestOutcome, OutcomeContent};
use crate::collections::{
    drop_listed, dropped_keys, keep_listed, kept_keys, list_contains, Key,
};
use crate::ids::{BatchId, GroupId, MessageId, OperationId};
use crate::order::extend_unique;
use vstd::prelude::*;

verus! {

/// What a stored batch holds.
#[derive(Clone, Copy, Debug, PartialEq, Eq, Structural)]
pub enum AccountVisibilityRecordKind {
    /// The mark that the operation is complete.
    Header,
    /// One engine event, by its place in the operation.
    Event { index: u64 },
    /// Reports, published messages and action outcomes.
    NonSession,
    /// Convergence wake-ups.
    SessionControl,
}

/// Where the effects of an operation come from.
#[allow(inconsistent_fields)]
#[derive(Debug, PartialEq, Eq)]
pub enum AccountVisibilitySource {
    Inbound {
        message_id: MessageId,
        received_at: u64,
        timestamp: u64,
        group_id_hint: Option<GroupId>,
        outcome: IngestOutcome,
        observed_at: u64,
    },
    Drain { observed_at: u64 },
    Convergence { group_id: GroupId, observed_at: u64 },
    Maintenance { observed_at: u64 },
    Outbound { group_id: Option<GroupId>, observed_at: u64 },
}

/// The content of an [`AccountVisibilitySource`].
pub enum SourceContent {
    Inbound(Seq<u8>, u64, u64, Option<Seq<u8>>, OutcomeContent, u64),
    Drain(u64),
    Convergence(Seq<u8>, u64),
    Maintenance(u64),
    Outbound(Option<Seq<u8>>, u64),
}

impl DeepView for AccountVisibilitySource {
    type V = SourceContent;

    open spec fn deep_view(&self) -> SourceContent {
        match self {
            AccountVisibilitySource::Inbound {
                message_id,
                received_at,
                timestamp,
                group_id_hint,
                outcome,
                observed_at,
            } => SourceContent::Inbound(
                message_id.deep_view(),
                *received_at,
                *timestamp,
                group_id_hint.deep_view(),
                outcome.deep_view(),
                *observed_at,
            ),
            AccountVisibilitySource::Drain { observed_at } => SourceContent::Drain(*observed_at),
            AccountVisibilitySource::Convergence {
                group_id,
                observed_at,
            } => SourceContent::Convergence(group_id.deep_view(), *observed_at),
            AccountVisibilitySource::Maintenance { observed_at } => SourceContent::Maintenance(
                *observed_at,
            ),
            AccountVisibilitySource::Outbound { group_id, observed_at } => SourceContent::Outbound(
                group_id.deep_view(),
                *observed_at,
            ),
        }
    }
}

/// When the effects of a source were observed.
pub open spec fn source_time(source: SourceContent) -> u64 {
    match source {
        SourceContent::Inbound(_, _, _, _, _, at) => at,
        SourceContent::Drain(at) => at,
        SourceContent::Convergence(_, at) => at,
        SourceContent::Maintenance(at) => at,
        SourceContent::Outbound(_, at) => at,
    }
}

fn same_group_hint(left: &Option<GroupId>, right: &Option<GroupId>) -> (equal: bool)
    ensures
        equal == (left.deep_view() == right.deep_view()),
{
    match (left, right) {
        (Some(a), Some(b)) => a.same(b),
        (None, None) => true,
        _ => false,
    }
}

impl AccountVisibilitySource {
    pub fn same(&self, other: &Self) -> (equal: bool)
        ensures
            equal == (self.deep_view() == other.deep_view()),
    {
        match (self, other) {
            (
                AccountVisibilitySource::Inbound {
                    message_id: m,
                    received_at: r,
                    timestamp: t,
                    group_id_hint: g,
                    outcome: f,
                    observed_at: o,
                },
                AccountVisibilitySource::Inbound {
                    message_id: n,
                    received_at: s,
                    timestamp: u,
                    group_id_hint: h,
                    outcome: e,
                    observed_at: p,
                },
            ) => m.same(n) && *r == *s && *t == *u && same_group_hint(g, h) && f.same(e) && *o == *p,
            (
                AccountVisibilitySource::Drain { observed_at: o },
                AccountVisibilitySource::Drain { observed_at: p },
            ) => *o == *p,
            (
                AccountVisibilitySource::Convergence { group_id: g, observed_at: o },
                AccountVisibilitySource::Convergence { group_id: h, observed_at: p },
            ) => g.same(h) && *o == *p,
            (
                AccountVisibilitySource::Maintenance { observed_at: o },
                AccountVisibilitySource::Maintenance { observed_at: p },
            ) => *o == *p,
            (
                AccountVisibilitySource::Outbound { group_id: g, observed_at: o },
                AccountVisibilitySource::Outbound { group_id: h, observed_at: p },
            ) => same_group_hint(g, h) && *o == *p,
            _ => false,
        }
    }

    /// When the effects were observed.
    pub fn observed_at(&self) -> (at: u64)
        ensures
            at == source_time(self.deep_view()),
    {
        match self {
            AccountVisibilitySource::Inbound { observed_at, .. } => *observed_at,
            AccountVisibilitySource::Drain { observed_at } => *observed_at,
            AccountVisibilitySource::Convergence { observed_at, .. } => *observed_at,
            AccountVisibilitySource::Maintenance { observed_at } => *observed_at,
            AccountVisibilitySource::Outbound { observed_at, .. } => *observed_at,
        }
    }
}

/// The end of an outbound action.
#[derive(Debug, PartialEq, Eq)]
pub struct OutboundActionOutcome {
    /// The group that the account asked to leave.
    pub group_id: GroupId,
    pub published: bool,
}

/// An app message that was published.
#[derive(Debug, PartialEq, Eq)]
pub struct PublishedAppMessage {
    pub group_id: GroupId,
    pub app_event_id: String,
}

/// The effects of one account operation. Records that only the runtime reads are
/// held by its numbers for them.
#[derive(Debug, PartialEq, Eq)]
pub struct AccountDeviceEffects {
    pub events: Vec<GroupEvent>,
    pub queued: Vec<u64>,
    pub pending_convergence: Vec<GroupId>,
    pub reports: Vec<u64>,
    pub fanout: Vec<u64>,
    pub failures: Vec<u64>,
    pub action_outcomes: Vec<OutboundActionOutcome>,
    pub published_app_messages: Vec<PublishedAppMessage>,
    pub welcome_failures: Vec<u64>,
    pub pending: Vec<u64>,
    pub post_join_rotation_pending: bool,
}

/// The content of [`AccountDeviceEffects`].
#[verifier::ext_equal]
pub struct EffectsContent {
    pub events: Seq<GroupEvent>,
    pub queued: Seq<u64>,
    pub pending_convergence: Seq<GroupId>,
    pub reports: Seq<u64>,
    pub fanout: Seq<u64>,
    pub failures: Seq<u64>,
    pub action_outcomes: Seq<OutboundActionOutcome>,
    pub published_app_messages: Seq<PublishedAppMessage>,
    pub welcome_failures: Seq<u64>,
    pub pending: Seq<u64>,
    pub post_join_rotation_pending: bool,
}

impl View for AccountDeviceEffects {
    type V = EffectsContent;

    open spec fn view(&self) -> EffectsContent {
        EffectsContent {
            events: self.events@,
            queued: self.queued@,
            pending_convergence: self.pending_convergence@,
            reports: self.reports@,
            fanout: self.fanout@,
            failures: self.failures@,
            action_outcomes: self.action_outcomes@,
            published_app_messages: self.published_app_messages@,
            welcome_failures: self.welcome_failures@,
            pending: self.pending@,
            post_join_rotation_pending: self.post_join_rotation_pending,
        }
    }
}

impl EffectsContent {
    pub open spec fn none() -> EffectsContent {
        EffectsContent {
            events: Seq::empty(),
            queued: Seq::empty(),
            pending_convergence: Seq::empty(),
            reports: Seq::empty(),
            fanout: Seq::empty(),
            failures: Seq::empty(),
            action_outcomes: Seq::empty(),
            published_app_messages: Seq::empty(),
            welcome_failures: Seq::empty(),
            pending: Seq::empty(),
            post_join_rotation_pending: false,
        }
    }

    /// These effects followed by later ones.
    pub open spec fn followed_by(self, later: EffectsContent) -> EffectsContent {
        EffectsContent {
            events: self.events + later.events,
            queued: self.queued + later.queued,
            pending_convergence: self.pending_convergence + later.pending_convergence,
            reports: self.reports + later.reports,
            fanout: self.fanout + later.fanout,
            failures: self.failures + later.failures,
            action_outcomes: self.action_outcomes + later.action_outcomes,
            published_app_messages: self.published_app_messages + later.published_app_messages,
            welcome_failures: self.welcome_failures + later.welcome_failures,
            pending: self.pending + later.pending,
            post_join_rotation_pending: self.post_join_rotation_pending
                || later.post_join_rotation_pending,
        }
    }
}

impl Default for AccountDeviceEffects {
    fn default() -> (effects: Self)
        ensures
            effects@ == EffectsContent::none(),
    {
        let effects = AccountDeviceEffects {
            events: Vec::new(),
            queued: Vec::new(),
            pending_convergence: Vec::new(),
            reports: Vec::new(),
            fanout: Vec::new(),
            failures: Vec::new(),
            action_outcomes: Vec::new(),
            published_app_messages: Vec::new(),
            welcome_failures: Vec::new(),
            pending: Vec::new(),
            post_join_rotation_pending: false,
        };
        assert(effects@ =~= EffectsContent::none());
        effects
    }
}

/// Appends later effects of the same operation. A rotation that is still owed
/// stays owed.
pub fn merge_account_visibility_effects(
    target: &mut AccountDeviceEffects,
    source: AccountDeviceEffects,
)
    ensures
        final(target)@ == old(target)@.followed_by(source@),
{
    let mut source = source;
    target.events.append(&mut source.events);
    target.queued.append(&mut source.queued);
    target.pending_convergence.append(&mut source.pending_convergence);
    target.reports.append(&mut source.reports);
    target.fanout.append(&mut source.fanout);
    target.failures.append(&mut source.failures);
    target.action_outcomes.append(&mut source.action_outcomes);
    target.published_app_messages.append(&mut source.published_app_messages);
    target.welcome_failures.append(&mut source.welcome_failures);
    target.pending.append(&mut source.pending);
    if source.post_join_rotation_pending {
        target.post_join_rotation_pending = true;
    }
}

/// One stored batch.
#[derive(Debug, PartialEq, Eq)]
pub struct AccountVisibilityBatch {
    pub batch_id: BatchId,
    pub operation_id: OperationId,
    pub kind: AccountVisibilityRecordKind,
    pub source: AccountVisibilitySource,
    pub effects: AccountDeviceEffects,
}

/// The identifiers of batches, in order.
pub open spec fn batch_ids(batches: Seq<AccountVisibilityBatch>) -> Seq<Seq<u8>> {
    Seq::new(batches.len(), |i: int| batches[i].batch_id.deep_view())
}

/// The identifiers of the batches of an operation that are of one kind.
pub open spec fn kind_ids(
    batches: Seq<AccountVisibilityBatch>,
    operation: Seq<u8>,
    kind: AccountVisibilityRecordKind,
) -> Seq<Seq<u8>>
    decreases batches.len(),
{
    if batches.len() == 0 {
        Seq::empty()
    } else {
        let rest = kind_ids(batches.drop_last(), operation, kind);
        if batches.last().operation_id.deep_view() == operation && batches.last().kind == kind {
            rest.push(batches.last().batch_id.deep_view())
        } else {
            rest
        }
    }
}

/// The batches whose identifier is not listed, in order.
pub open spec fn batches_without(
    batches: Seq<AccountVisibilityBatch>,
    acknowledged: Seq<Seq<u8>>,
) -> Seq<AccountVisibilityBatch>
    decreases batches.len(),
{
    if batches.len() == 0 {
        batches
    } else {
        let rest = batches_without(batches.drop_last(), acknowledged);
        if acknowledged.contains(batches.last().batch_id.deep_view()) {
            rest
        } else {
            rest.push(batches.last())
        }
    }
}

/// Whether a batch is an unstaged record of exactly one event of an operation.
pub open spec fn records_event(
    batch: AccountVisibilityBatch,
    operation: Seq<u8>,
    staged: Seq<Seq<u8>>,
    event: GroupEvent,
) -> bool {
    &&& batch.operation_id.deep_view() == operation
    &&& batch.kind is Event
    &&& !staged.contains(batch.batch_id.deep_view())
    &&& batch.effects.events@.len() == 1
    &&& batch.effects.events@[0].deep_view() == event.deep_view()
}

/// A lease on stored batches, and those of them whose projection is done.
#[derive(Debug, PartialEq, Eq)]
pub struct PendingAccountVisibilityLease {
    pub lease: u64,
    pub batches: Vec<AccountVisibilityBatch>,
    pub staged_batch_ids: Vec<BatchId>,
    pub projection_operation_id: Option<OperationId>,
}

fn collect_batch_ids(batches: &Vec<AccountVisibilityBatch>) -> (ids: Vec<BatchId>)
    ensures
        ids.deep_view() == batch_ids(batches@),
{
    let mut ids: Vec<BatchId> = Vec::new();
    let mut i: usize = 0;
    while i < batches.len()
        invariant
            i <= batches@.len(),
            ids@.len() == i,
            forall|j: int|
                0 <= j < i ==> #[trigger] ids@[j].deep_view() == batches@[j].batch_id.deep_view(),
        decreases batches.len() - i,
    {
        ids.push(batches[i].batch_id.clone());
        i += 1;
    }
    assert(ids.deep_view() =~= batch_ids(batches@));
    ids
}

/// Replaces the lease. What was staged stays staged as far as the new batches
/// still hold it.
pub fn install_account_visibility_lease(
    slot: &mut Option<PendingAccountVisibilityLease>,
    lease: u64,
    batches: Vec<AccountVisibilityBatch>,
    current_operation_id: Option<OperationId>,
)
    ensures
        *final(slot) matches Some(pending) && {
            &&& pending.lease == lease
            &&& pending.batches == batches
            &&& pending.projection_operation_id == current_operation_id
            &&& pending.staged_batch_ids.deep_view() == kept_keys(
                match *old(slot) {
                    Some(before) => before.staged_batch_ids.deep_view(),
                    None => Seq::empty(),
                },
                batch_ids(batches@),
            )
        },
{
    let staged: Vec<BatchId> = match slot.take() {
        Some(before) => before.staged_batch_ids,
        None => Vec::new(),
    };
    assert(*old(slot) is None ==> staged.deep_view() =~= Seq::<Seq<u8>>::empty());
    let ids = collect_batch_ids(&batches);
    let staged_batch_ids = keep_listed(staged, &ids);
    *slot =
    Some(
        PendingAccountVisibilityLease {
            lease,
            batches,
            staged_batch_ids,
            projection_operation_id: current_operation_id,
        },
    );
}

impl PendingAccountVisibilityLease {
    /// Stages every batch of the current operation that is of one kind.
    pub fn stage_current_account_visibility_record_kind(
        &mut self,
        kind: AccountVisibilityRecordKind,
    )
        ensures
            final(self).lease == old(self).lease,
            final(self).batches == old(self).batches,
            final(self).projection_operation_id == old(self).projection_operation_id,
            final(self).staged_batch_ids.deep_view() == (match old(self).projection_operation_id {
                Some(operation) => extend_unique(
                    old(self).staged_batch_ids.deep_view(),
                    kind_ids(old(self).batches@, operation.deep_view(), kind),
                ),
                None => old(self).staged_batch_ids.deep_view(),
            }),
    {
        match &self.projection_operation_id {
            None => {},
            Some(operation) => {
                let ghost before = self.staged_batch_ids.deep_view();
                let ghost op = operation.deep_view();
                let mut i: usize = 0;
                assert(self.batches@.take(0) =~= Seq::<AccountVisibilityBatch>::empty());
                while i < self.batches.len()
                    invariant
                        i <= self.batches@.len(),
                        self.lease == old(self).lease,
                        self.batches == old(self).batches,
                        self.projection_operation_id == old(self).projection_operation_id,
                        operation.deep_view() == op,
                        self.staged_batch_ids.deep_view() == extend_unique(
                            before,
                            kind_ids(self.batches@.take(i as int), op, kind),
                        ),
                    decreases self.batches.len() - i,
                {
                    let ghost staged = self.staged_batch_ids.deep_view();
                    assert(self.batches@.take(i + 1).drop_last() =~= self.batches@.take(i as int));
                    let chosen = self.batches[i].operation_id.same(operation)
                        && self.batches[i].kind == kind;
                    if chosen {
                        let id = self.batches[i].batch_id.clone();
                        let ghost added = id.deep_view();
                        proof {
                            let rest = kind_ids(self.batches@.take(i as int), op, kind);
                            assert(rest.push(added).drop_last() =~= rest);
                        }
                        if !list_contains(&self.staged_batch_ids, &id) {
                            self.staged_batch_ids.push(id);
                            assert(self.staged_batch_ids.deep_view() =~= staged.push(added));
                        }
                    }
                    i += 1;
                }
                assert(self.batches@.take(self.batches@.len() as int) =~= self.batches@);
            },
        }
    }

    /// Stages the first unstaged batch of the current operation that records
    /// exactly the given event.
    pub fn stage_current_account_visibility_event(&mut self, event: &GroupEvent)
        ensures
            final(self).lease == old(self).lease,
            final(self).batches == old(self).batches,
            final(self).projection_operation_id == old(self).projection_operation_id,
            match old(self).projection_operation_id {
                None => final(self).staged_batch_ids == old(self).staged_batch_ids,
                Some(operation) => {
                    let staged = old(self).staged_batch_ids.deep_view();
                    ||| exists|i: int|
                        {
                            &&& 0 <= i < old(self).batches@.len()
                            &&& #[trigger] records_event(
                                old(self).batches@[i],
                                operation.deep_view(),
                                staged,
                                *event,
                            )
                            &&& forall|j: int|
                                0 <= j < i ==> !records_event(
                                    #[trigger] old(self).batches@[j],
                                    operation.deep_view(),
                                    staged,
                                    *event,
                                )
                            &&& final(self).staged_batch_ids.deep_view() == staged.push(
                                old(self).batches@[i].batch_id.deep_view(),
                            )
                        }
                    ||| {
                        &&& forall|j: int|
                            0 <= j < old(self).batches@.len() ==> !records_event(
                                #[trigger] old(self).batches@[j],
                                operation.deep_view(),
                                staged,
                                *event,
                            )
                        &&& final(self).staged_batch_ids == old(self).staged_batch_ids
                    }
                },
            },
    {
        let found: Option<usize> = match &self.projection_operation_id {
            None => None,
            Some(operation) => {
                let mut found: Option<usize> = None;
                let mut i: usize = 0;
                while i < self.batches.len() && found.is_none()
                    invariant
                        i <= self.batches@.len(),
                        self == old(self),
                        self.projection_operation_id == Some(*operation),
                        match found {
                            Some(at) => {
                                &&& at < self.batches@.len()
                                &&& records_event(
                                    self.batches@[at as int],
                                    operation.deep_view(),
                                    self.staged_batch_ids.deep_view(),
                                    *event,
                                )
                                &&& forall|j: int|
                                    0 <= j < at ==> !records_event(
                                        #[trigger] self.batches@[j],
                                        operation.deep_view(),
                                        self.staged_batch_ids.deep_view(),
                                        *event,
                                    )
                            },
                            None => forall|j: int|
                                0 <= j < i ==> !records_event(
                                    #[trigger] self.batches@[j],
                                    operation.deep_view(),
                                    self.staged_batch_ids.deep_view(),
                                    *event,
                                ),
                        },
                    decreases self.batches.len() - i,
                {
                    let batch = &self.batches[i];
                    let is_event = match batch.kind {
                        AccountVisibilityRecordKind::Event { .. } => true,
                        _ => false,
                    };
                    if is_event && batch.operation_id.same(operation) && !list_contains(
                        &self.staged_batch_ids,
                        &batch.batch_id,
                    ) && batch.effects.events.len() == 1 && batch.effects.events[0].same(event) {
                        found = Some(i);
                    }
                    i += 1;
                }
                found
            },
        };
        match found {
            Some(at) => {
                let ghost staged = self.staged_batch_ids.deep_view();
                let id = self.batches[at].batch_id.clone();
                let ghost added = id.deep_view();
                self.staged_batch_ids.push(id);
                assert(self.staged_batch_ids.deep_view() =~= staged.push(added));
                assert(records_event(
                    old(self).batches@[at as int],
                    old(self).projection_operation_id->Some_0.deep_view(),
                    staged,
                    *event,
                ));
            },
            None => {},
        }
    }

    /// When the current operation was observed; now, if there is none.
    pub fn current_account_visibility_observed_at(&self, now: u64) -> (at: u64)
        ensures
            match self.projection_operation_id {
                None => at == now,
                Some(operation) => operation_time(self.batches@, operation.deep_view(), now) == at,
            },
    {
        match &self.projection_operation_id {
            None => now,
            Some(operation) => {
                let mut i: usize = self.batches.len();
                let mut at: u64 = now;
                assert(self.batches@.skip(self.batches@.len() as int)
                    =~= Seq::<AccountVisibilityBatch>::empty());
                while i > 0
                    invariant
                        i <= self.batches@.len(),
                        at == operation_time(
                            self.batches@.skip(i as int),
                            operation.deep_view(),
                            now,
                        ),
                    decreases i,
                {
                    i -= 1;
                    assert(self.batches@.skip(i as int).drop_first() =~= self.batches@.skip(i + 1));
                    if self.batches[i].operation_id.same(operation) {
                        at = self.batches[i].source.observed_at();
                    }
                }
                assert(self.batches@.skip(0) =~= self.batches@);
                at
            },
        }
    }
}

/// The observation time of an operation's first batch; now, if it has none.
pub open spec fn operation_time(
    batches: Seq<AccountVisibilityBatch>,
    operation: Seq<u8>,
    now: u64,
) -> u64
    decreases batches.len(),
{
    if batches.len() == 0 {
        now
    } else if batches[0].operation_id.deep_view() == operation {
        source_time(batches[0].source.deep_view())
    } else {
        operation_time(batches.drop_first(), operation, now)
    }
}

/// Whether some projected batch waits for its acknowledgement.
pub fn has_staged_account_visibility_batches(slot: &Option<PendingAccountVisibilityLease>) -> (has:
    bool)
    ensures
        has == (slot matches Some(pending) && pending.staged_batch_ids@.len() > 0),
{
    match slot {
        Some(pending) => pending.staged_batch_ids.len() > 0,
        None => false,
    }
}

/// Sets the operation that is being projected.
pub fn set_account_visibility_projection_operation(
    slot: &mut Option<PendingAccountVisibilityLease>,
    operation_id: Option<OperationId>,
)
    ensures
        *final(slot) == (match *old(slot) {
            Some(pending) => Some(
                PendingAccountVisibilityLease { projection_operation_id: operation_id, ..pending },
            ),
            None => None,
        }),
{
    match slot.take() {
        Some(pending) => {
            let mut pending = pending;
            pending.projection_operation_id = operation_id;
            *slot = Some(pending);
        },
        None => {},
    }
}

/// Forgets batches that a save acknowledged. Without batches the lease ends.
pub fn finish_durably_acknowledged_account_visibility_batches(
    slot: &mut Option<PendingAccountVisibilityLease>,
    acknowledged: &Vec<BatchId>,
)
    ensures
        match *old(slot) {
            None => *final(slot) is None,
            Some(before) => if acknowledged@.len() == 0 {
                *final(slot) == *old(slot)
            } else {
                let left = batches_without(before.batches@, acknowledged.deep_view());
                if left.len() == 0 {
                    *final(slot) is None
                } else {
                    &&& *final(slot) matches Some(after)
                    &&& after.batches@ == left
                    &&& after.staged_batch_ids.deep_view() == dropped_keys(
                        before.staged_batch_ids.deep_view(),
                        acknowledged.deep_view(),
                    )
                    &&& after.lease == before.lease
                    &&& after.projection_operation_id == before.projection_operation_id
                }
            },
        },
{
    if acknowledged.len() == 0 {
        return;
    }
    match slot.take() {
        None => {},
        Some(before) => {
            let mut source = before.batches;
            let ghost all = source@;
            let mut left: Vec<AccountVisibilityBatch> = Vec::new();
            assert(all.take(0) =~= Seq::<AccountVisibilityBatch>::empty());
            assert(all.skip(0) =~= all);
            while source.len() > 0
                invariant
                    source@.len() <= all.len(),
                    source@ == all.skip(all.len() - source@.len()),
                    left@ == batches_without(
                        all.take(all.len() - source@.len()),
                        acknowledged.deep_view(),
                    ),
                decreases source.len(),
            {
                let ghost done = all.len() - source@.len();
                let batch = source.remove(0);
                assert(batch == all[done]);
                assert(source@ =~= all.skip(done + 1));
                assert(all.take(done + 1).drop_last() =~= all.take(done));
                if !list_contains(acknowledged, &batch.batch_id) {
                    left.push(batch);
                }
            }
            assert(all.take(all.len() as int) =~= all);
            let staged_batch_ids = drop_listed(before.staged_batch_ids, acknowledged);
            if left.len() > 0 {
                *slot =
                Some(
                    PendingAccountVisibilityLease {
                        lease: before.lease,
                        batches: left,
                        staged_batch_ids,
                        projection_operation_id: before.projection_operation_id,
                    },
                );
            }
        },
    }
}

} // verus!
