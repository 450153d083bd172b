//! Projecting again what an interrupted caller left behind: the stored batches are
//! leased, grouped into their operations, and each operation is projected under its
//! own source before anything new is accepted.

use crate::client::app_client::{staged_ids, stages_kind, AppClient};
use crate::client::events::{copy_optional_group, EventContent};
use crate::client::replay::{
    group_visibility_operations, grouped, sources_agree, ReplayedAccountVisibilityOperation,
};
use crate::client::summary::SlotsContent;
use crate::client::visibility::{
    batch_ids, has_staged_account_visibility_batches, install_account_visibility_lease,
    set_account_visibility_projection_operation, AccountDeviceEffects, AccountVisibilityBatch,
    AccountVisibilityRecordKind, AccountVisibilitySource, OutboundActionOutcome,
    PendingAccountVisibilityLease, PublishedAppMessage, SourceContent,
};
use crate::collections::{copy_list, kept_keys, Key};
use crate::error::AppError;
use crate::ids::OperationId;
use vstd::prelude::*;

verus! {

/// The content of an [`AccountVisibilityBatch`].
#[verifier::ext_equal]
pub struct BatchContent {
    pub batch_id: Seq<u8>,
    pub operation_id: Seq<u8>,
    pub kind: AccountVisibilityRecordKind,
    pub source: SourceContent,
    pub effects: DeepEffects,
}

/// The content of [`AccountDeviceEffects`], down to what its lists hold.
#[verifier::ext_equal]
pub struct DeepEffects {
    pub events: Seq<EventContent>,
    pub queued: Seq<u64>,
    pub pending_convergence: Seq<Seq<u8>>,
    pub reports: Seq<u64>,
    pub fanout: Seq<u64>,
    pub failures: Seq<u64>,
    pub action_outcomes: Seq<(Seq<u8>, bool)>,
    pub published_app_messages: Seq<(Seq<u8>, Seq<char>)>,
    pub welcome_failures: Seq<u64>,
    pub pending: Seq<u64>,
    pub post_join_rotation_pending: bool,
}

impl DeepView for OutboundActionOutcome {
    type V = (Seq<u8>, bool);

    open spec fn deep_view(&self) -> (Seq<u8>, bool) {
        (self.group_id.deep_view(), self.published)
    }
}

impl DeepView for PublishedAppMessage {
    type V = (Seq<u8>, Seq<char>);

    open spec fn deep_view(&self) -> (Seq<u8>, Seq<char>) {
        (self.group_id.deep_view(), self.app_event_id@)
    }
}

impl DeepView for AccountVisibilityBatch {
    type V = BatchContent;

    open spec fn deep_view(&self) -> BatchContent {
        BatchContent {
            batch_id: self.batch_id.deep_view(),
            operation_id: self.operation_id.deep_view(),
            kind: self.kind,
            source: self.source.deep_view(),
            effects: self.effects.deep_view(),
        }
    }
}

impl DeepView for AccountDeviceEffects {
    type V = DeepEffects;

    open spec fn deep_view(&self) -> DeepEffects {
        DeepEffects {
            events: self.events.deep_view(),
            queued: self.queued@,
            pending_convergence: self.pending_convergence.deep_view(),
            reports: self.reports@,
            fanout: self.fanout@,
            failures: self.failures@,
            action_outcomes: self.action_outcomes.deep_view(),
            published_app_messages: self.published_app_messages.deep_view(),
            welcome_failures: self.welcome_failures@,
            pending: self.pending@,
            post_join_rotation_pending: self.post_join_rotation_pending,
        }
    }
}

fn copy_numbers(numbers: &Vec<u64>) -> (copy: Vec<u64>)
    ensures
        copy@ == numbers@,
{
    let mut copy: Vec<u64> = Vec::new();
    let mut i: usize = 0;
    while i < numbers.len()
        invariant
            i <= numbers@.len(),
            copy@ == numbers@.take(i as int),
        decreases numbers.len() - i,
    {
        copy.push(numbers[i]);
        assert(numbers@.take(i + 1) =~= numbers@.take(i as int).push(numbers@[i as int]));
        i += 1;
    }
    assert(numbers@.take(numbers@.len() as int) =~= numbers@);
    copy
}

fn copy_outcomes(outcomes: &Vec<OutboundActionOutcome>) -> (copy: Vec<OutboundActionOutcome>)
    ensures
        copy.deep_view() == outcomes.deep_view(),
{
    let mut copy: Vec<OutboundActionOutcome> = Vec::new();
    let mut i: usize = 0;
    while i < outcomes.len()
        invariant
            i <= outcomes@.len(),
            copy@.len() == i,
            forall|j: int|
                0 <= j < i ==> (#[trigger] copy@[j]).deep_view() == outcomes@[j].deep_view(),
        decreases outcomes.len() - i,
    {
        copy.push(
            OutboundActionOutcome {
                group_id: outcomes[i].group_id.duplicate(),
                published: outcomes[i].published,
            },
        );
        i += 1;
    }
    assert(copy.deep_view() =~= outcomes.deep_view());
    copy
}

fn copy_published(messages: &Vec<PublishedAppMessage>) -> (copy: Vec<PublishedAppMessage>)
    ensures
        copy.deep_view() == messages.deep_view(),
{
    let mut copy: Vec<PublishedAppMessage> = Vec::new();
    let mut i: usize = 0;
    while i < messages.len()
        invariant
            i <= messages@.len(),
            copy@.len() == i,
            forall|j: int|
                0 <= j < i ==> (#[trigger] copy@[j]).deep_view() == messages@[j].deep_view(),
        decreases messages.len() - i,
    {
        copy.push(
            PublishedAppMessage {
                group_id: messages[i].group_id.duplicate(),
                app_event_id: messages[i].app_event_id.clone(),
            },
        );
        i += 1;
    }
    assert(copy.deep_view() =~= messages.deep_view());
    copy
}

fn copy_source(source: &AccountVisibilitySource) -> (copy: AccountVisibilitySource)
    ensures
        copy.deep_view() == source.deep_view(),
{
    match source {
        AccountVisibilitySource::Inbound {
            message_id,
            received_at,
            timestamp,
            group_id_hint,
            outcome,
            observed_at,
        } => AccountVisibilitySource::Inbound {
            message_id: message_id.duplicate(),
            received_at: *received_at,
            timestamp: *timestamp,
            group_id_hint: copy_optional_group(group_id_hint),
            outcome: outcome.duplicate(),
            observed_at: *observed_at,
        },
        AccountVisibilitySource::Drain { observed_at } => AccountVisibilitySource::Drain {
            observed_at: *observed_at,
        },
        AccountVisibilitySource::Convergence {
            group_id,
            observed_at,
        } => AccountVisibilitySource::Convergence {
            group_id: group_id.duplicate(),
            observed_at: *observed_at,
        },
        AccountVisibilitySource::Maintenance {
            observed_at,
        } => AccountVisibilitySource::Maintenance { observed_at: *observed_at },
        AccountVisibilitySource::Outbound {
            group_id,
            observed_at,
        } => AccountVisibilitySource::Outbound {
            group_id: copy_optional_group(group_id),
            observed_at: *observed_at,
        },
    }
}

impl AccountDeviceEffects {
    pub fn duplicate(&self) -> (copy: Self)
        ensures
            copy.deep_view() == self.deep_view(),
    {
        AccountDeviceEffects {
            events: copy_list(&self.events),
            queued: copy_numbers(&self.queued),
            pending_convergence: copy_list(&self.pending_convergence),
            reports: copy_numbers(&self.reports),
            fanout: copy_numbers(&self.fanout),
            failures: copy_numbers(&self.failures),
            action_outcomes: copy_outcomes(&self.action_outcomes),
            published_app_messages: copy_published(&self.published_app_messages),
            welcome_failures: copy_numbers(&self.welcome_failures),
            pending: copy_numbers(&self.pending),
            post_join_rotation_pending: self.post_join_rotation_pending,
        }
    }
}

fn copy_batch(batch: &AccountVisibilityBatch) -> (copy: AccountVisibilityBatch)
    ensures
        copy.deep_view() == batch.deep_view(),
{
    AccountVisibilityBatch {
        batch_id: batch.batch_id.duplicate(),
        operation_id: batch.operation_id.duplicate(),
        kind: batch.kind,
        source: copy_source(&batch.source),
        effects: batch.effects.duplicate(),
    }
}

fn copy_batches(batches: &Vec<AccountVisibilityBatch>) -> (copy: Vec<AccountVisibilityBatch>)
    ensures
        copy.deep_view() == batches.deep_view(),
{
    let mut copy: Vec<AccountVisibilityBatch> = Vec::new();
    let mut i: usize = 0;
    while i < batches.len()
        invariant
            i <= batches@.len(),
            copy@.len() == i,
            forall|j: int|
                0 <= j < i ==> (#[trigger] copy@[j]).deep_view() == batches@[j].deep_view(),
        decreases batches.len() - i,
    {
        copy.push(copy_batch(&batches[i]));
        i += 1;
    }
    assert(copy.deep_view() =~= batches.deep_view());
    copy
}

/// What a replay waits for.
#[derive(Clone, Copy, Debug, PartialEq, Eq, Structural)]
pub enum VisibilityPoint {
    /// The save of what was staged before.
    Save,
    Lease,
    /// The projection of the current operation.
    Projection,
    /// The routes before the current operation is committed.
    Routes,
    /// The save that commits the current operation.
    Commit,
    Ended,
}

/// One replay.
pub struct VisibilityReplay {
    pub operations: Vec<ReplayedAccountVisibilityOperation>,
    pub at: usize,
    pub point: VisibilityPoint,
}

/// What the step that a replay waits for brought.
pub enum VisibilityEvent {
    Saved,
    /// The lease of the stored batches; none where there are none.
    Leased { lease: Option<(u64, Vec<AccountVisibilityBatch>)> },
    Projected,
    RoutesRefreshed { routing_changed: bool },
    Failed { error: AppError },
}

/// What a replay asks for.
pub enum VisibilityAction {
    SaveState,
    Lease,
    /// Project the operation at an index under its own source.
    Project { index: usize },
    RefreshRoutes,
    /// Whether anything was replayed.
    Ended { result: Result<bool, AppError> },
}

/// Whether an event answers what a replay waits for.
pub open spec fn answers_replay(point: VisibilityPoint, event: VisibilityEvent) -> bool {
    match event {
        VisibilityEvent::Saved => point is Save || point is Commit,
        VisibilityEvent::Leased { .. } => point is Lease,
        VisibilityEvent::Projected => point is Projection,
        VisibilityEvent::RoutesRefreshed { .. } => point is Routes,
        VisibilityEvent::Failed { .. } => !(point is Ended),
    }
}

/// How a lease changes when another operation is projected.
pub open spec fn projects(
    before: Option<PendingAccountVisibilityLease>,
    after: Option<PendingAccountVisibilityLease>,
    operation: Option<Seq<u8>>,
) -> bool {
    match (before, after) {
        (None, None) => true,
        (Some(held), Some(set)) => {
            &&& set == (PendingAccountVisibilityLease {
                projection_operation_id: set.projection_operation_id,
                ..held
            })
            &&& set.projection_operation_id.deep_view() == operation
        },
        _ => false,
    }
}

/// How a client changes when another operation is projected.
pub open spec fn turns_client(
    before: AppClient,
    after: AppClient,
    operation: Option<Seq<u8>>,
) -> bool {
    &&& after == (AppClient { visibility: after.visibility, ..before })
    &&& projects(before.visibility, after.visibility, operation)
}

/// How a replay turns to its next operation, or ends: none is projected any more
/// then.
pub open spec fn turns_replay(
    replay: VisibilityReplay,
    before: AppClient,
    after: AppClient,
    action: VisibilityAction,
) -> bool {
    if replay.at < replay.operations@.len() {
        &&& replay.point is Projection
        &&& turns_client(
            before,
            after,
            Some(replay.operations@[replay.at as int].operation_id.deep_view()),
        )
        &&& action == (VisibilityAction::Project { index: replay.at })
    } else {
        &&& replay.point is Ended
        &&& turns_client(before, after, None)
        &&& action == (VisibilityAction::Ended { result: Ok::<bool, AppError>(true) })
    }
}

/// How a client takes over a lease. Batches that were staged under an earlier one
/// stay staged where they are leased again.
pub open spec fn takes_lease(
    before: AppClient,
    after: AppClient,
    lease: u64,
    batches: Vec<AccountVisibilityBatch>,
) -> bool {
    &&& after == (AppClient { visibility: after.visibility, ..before })
    &&& after.visibility matches Some(held) && {
        &&& held.lease == lease
        &&& held.batches == batches
        &&& held.staged_batch_ids.deep_view() == kept_keys(
            staged_ids(before.visibility),
            batch_ids(batches@),
        )
    }
}

/// Whether something waits to be committed.
pub open spec fn has_to_commit(client: AppClient) -> bool {
    client.slots@.uncheckpointed is Some || staged_ids(client.visibility).len() > 0
}

/// How a replay and its client step.
pub open spec fn replay_of_visibility_steps(
    before: VisibilityReplay,
    after: VisibilityReplay,
    client: AppClient,
    stepped: AppClient,
    event: VisibilityEvent,
    action: VisibilityAction,
) -> bool {
    match event {
        VisibilityEvent::Failed { error } => {
            &&& after.operations == before.operations
            &&& after.at == before.at
            &&& after.point is Ended
            &&& if before.point is Projection {
                turns_client(client, stepped, None)
            } else {
                stepped == client
            }
            &&& action == (VisibilityAction::Ended { result: Err::<bool, AppError>(error) })
        },
        VisibilityEvent::Saved => {
            &&& after.operations == before.operations
            &&& if before.point is Save {
                &&& after.at == before.at
                &&& after.point is Lease
                &&& stepped == client
                &&& action is Lease
            } else {
                &&& after.at == before.at + 1
                &&& turns_replay(after, client, stepped, action)
            }
        },
        VisibilityEvent::Leased { lease: None } => {
            &&& after.operations == before.operations
            &&& after.point is Ended
            &&& stepped == client
            &&& action == (VisibilityAction::Ended { result: Ok::<bool, AppError>(false) })
        },
        VisibilityEvent::Leased { lease: Some((lease, batches)) } => exists|
            copies: Seq<AccountVisibilityBatch>,
            leased: AppClient,
        | #[trigger]
            leases(copies, leased, client, stepped, lease, batches, after, action),
        VisibilityEvent::Projected => {
            &&& after.operations == before.operations
            &&& exists|staged: AppClient| #[trigger]
                stages_header(staged, client) && if has_to_commit(staged) {
                    &&& after.at == before.at
                    &&& after.point is Routes
                    &&& stepped == staged
                    &&& action is RefreshRoutes
                } else {
                    &&& after.at == before.at + 1
                    &&& turns_replay(after, staged, stepped, action)
                }
        },
        VisibilityEvent::RoutesRefreshed { routing_changed } => {
            &&& after.operations == before.operations
            &&& after.at == before.at
            &&& after.point is Commit
            &&& stepped == (AppClient { slots: stepped.slots, ..client })
            &&& stepped.slots@ == (SlotsContent {
                uncheckpointed_refresh: client.slots@.uncheckpointed_refresh || routing_changed,
                ..client.slots@
            })
            &&& action is SaveState
        },
    }
}

/// How the mark that an operation is complete is staged.
pub open spec fn stages_header(staged: AppClient, client: AppClient) -> bool {
    &&& staged == (AppClient { visibility: staged.visibility, ..client })
    &&& stages_kind(client.visibility, staged.visibility, AccountVisibilityRecordKind::Header)
}

/// How leased batches become the operations of a replay. Batches of one operation
/// that disagree on their source end it.
pub open spec fn leases(
    copies: Seq<AccountVisibilityBatch>,
    leased: AppClient,
    client: AppClient,
    stepped: AppClient,
    lease: u64,
    batches: Vec<AccountVisibilityBatch>,
    after: VisibilityReplay,
    action: VisibilityAction,
) -> bool {
    &&& copies.len() == batches@.len()
    &&& forall|i: int|
        0 <= i < copies.len() ==> (#[trigger] copies[i]).deep_view() == batches@[i].deep_view()
    &&& takes_lease(client, leased, lease, batches)
    &&& leased.visibility->Some_0.projection_operation_id is None
    &&& if sources_agree(copies) {
        &&& grouped(after.operations@, copies)
        &&& after.at == 0
        &&& turns_replay(after, leased, stepped, action)
    } else {
        &&& after.point is Ended
        &&& stepped == leased
        &&& action matches VisibilityAction::Ended { result: Err(AppError::BlockingTask(text)) }
            && text@ == "account visibility operation changed source"@
    }
}

impl VisibilityReplay {
    /// Whether the replay is at one of its operations while it waits for something
    /// of it.
    pub open spec fn wf(&self) -> bool {
        self.point is Projection || self.point is Routes || self.point is Commit ==> self.at
            < self.operations@.len()
    }

    /// Begins a replay. What was staged before is saved first.
    pub fn begin(client: &AppClient) -> (begun: (Self, VisibilityAction))
        ensures
            begun.0.operations@.len() == 0,
            begun.0.at == 0,
            begun.0.wf(),
            if staged_ids(client.visibility).len() > 0 {
                begun.0.point is Save && begun.1 is SaveState
            } else {
                begun.0.point is Lease && begun.1 is Lease
            },
    {
        let replay = VisibilityReplay {
            operations: Vec::new(),
            at: 0,
            point: VisibilityPoint::Lease,
        };
        if has_staged_account_visibility_batches(&client.visibility) {
            let mut replay = replay;
            replay.point = VisibilityPoint::Save;
            (replay, VisibilityAction::SaveState)
        } else {
            (replay, VisibilityAction::Lease)
        }
    }

    fn turn(&mut self, client: &mut AppClient) -> (action: VisibilityAction)
        ensures
            *final(self) == (VisibilityReplay { point: final(self).point, ..*old(self) }),
            turns_replay(*final(self), *old(client), *final(client), action),
            final(self).wf(),
    {
        if self.at < self.operations.len() {
            let operation: OperationId = self.operations[self.at].operation_id.duplicate();
            set_account_visibility_projection_operation(&mut client.visibility, Some(operation));
            self.point = VisibilityPoint::Projection;
            VisibilityAction::Project { index: self.at }
        } else {
            set_account_visibility_projection_operation(&mut client.visibility, None);
            self.point = VisibilityPoint::Ended;
            VisibilityAction::Ended { result: Ok(true) }
        }
    }

    fn take_lease(
        &mut self,
        client: &mut AppClient,
        lease: u64,
        batches: Vec<AccountVisibilityBatch>,
    ) -> (action: VisibilityAction)
        ensures
            exists|copies: Seq<AccountVisibilityBatch>, leased: AppClient| #[trigger]
                leases(
                    copies,
                    leased,
                    *old(client),
                    *final(client),
                    lease,
                    batches,
                    *final(self),
                    action,
                ),
            final(self).wf(),
    {
        let ghost start = *client;
        let copies = copy_batches(&batches);
        let ghost held = copies@;
        assert(held.len() == copies.deep_view().len());
        assert(batches@.len() == batches.deep_view().len());
        assert forall|i: int| 0 <= i < held.len() implies (#[trigger] held[i]).deep_view()
            == batches@[i].deep_view() by {
            assert(copies.deep_view()[i] == batches.deep_view()[i]);
        }
        install_account_visibility_lease(&mut client.visibility, lease, batches, None);
        let ghost leased = *client;
        self.at = 0;
        match group_visibility_operations(copies) {
            Ok(operations) => {
                self.operations = operations;
                let action = self.turn(client);
                assert(leases(held, leased, start, *client, lease, batches, *self, action));
                action
            },
            Err(error) => {
                self.point = VisibilityPoint::Ended;
                let action = VisibilityAction::Ended { result: Err(error) };
                assert(leases(held, leased, start, *client, lease, batches, *self, action));
                action
            },
        }
    }

    /// Makes a step.
    pub fn step(&mut self, client: &mut AppClient, event: VisibilityEvent) -> (action:
        VisibilityAction)
        requires
            old(self).wf(),
            answers_replay(old(self).point, event),
        ensures
            replay_of_visibility_steps(
                *old(self),
                *final(self),
                *old(client),
                *final(client),
                event,
                action,
            ),
            final(self).wf(),
    {
        match event {
            VisibilityEvent::Failed { error } => {
                match self.point {
                    VisibilityPoint::Projection => {
                        set_account_visibility_projection_operation(&mut client.visibility, None);
                    },
                    _ => {},
                }
                self.point = VisibilityPoint::Ended;
                VisibilityAction::Ended { result: Err(error) }
            },
            VisibilityEvent::Saved => match self.point {
                VisibilityPoint::Save => {
                    self.point = VisibilityPoint::Lease;
                    VisibilityAction::Lease
                },
                _ => {
                    assert(self.at < self.operations.len());
                    self.at = self.at + 1;
                    self.turn(client)
                },
            },
            VisibilityEvent::Leased { lease } => match lease {
                None => {
                    self.point = VisibilityPoint::Ended;
                    VisibilityAction::Ended { result: Ok(false) }
                },
                Some((lease, batches)) => self.take_lease(client, lease, batches),
            },
            VisibilityEvent::Projected => {
                let ghost before = *client;
                client.stage_current_account_visibility_record_kind(
                    AccountVisibilityRecordKind::Header,
                );
                assert(stages_header(*client, before));
                if client.has_visibility_to_checkpoint() {
                    self.point = VisibilityPoint::Routes;
                    VisibilityAction::RefreshRoutes
                } else {
                    assert(self.at < self.operations.len());
                    self.at = self.at + 1;
                    self.turn(client)
                }
            },
            VisibilityEvent::RoutesRefreshed { routing_changed } => {
                client.slots.remember_uncheckpointed_runtime_group_subscription_refresh(
                    routing_changed,
                );
                self.point = VisibilityPoint::Commit;
                VisibilityAction::SaveState
            },
        }
    }
}

/// An operation is marked complete only after its projection succeeded: no other step
/// of a replay that holds its lease stages a record.
pub proof fn law_operation_is_complete_after_its_projection(
    before: VisibilityReplay,
    after: VisibilityReplay,
    client: AppClient,
    stepped: AppClient,
    event: VisibilityEvent,
    action: VisibilityAction,
)
    requires
        replay_of_visibility_steps(before, after, client, stepped, event, action),
        !(event is Leased),
        staged_ids(stepped.visibility) != staged_ids(client.visibility),
    ensures
        event is Projected,
{
}

/// A projection that fails ends the replay, and no later save counts for the
/// operation that it left unfinished.
pub proof fn law_failed_operation_lends_no_authority(
    before: VisibilityReplay,
    after: VisibilityReplay,
    client: AppClient,
    stepped: AppClient,
    error: AppError,
    action: VisibilityAction,
)
    requires
        before.point is Projection,
        replay_of_visibility_steps(
            before,
            after,
            client,
            stepped,
            VisibilityEvent::Failed { error },
            action,
        ),
    ensures
        after.point is Ended,
        action == (VisibilityAction::Ended { result: Err::<bool, AppError>(error) }),
        stepped.visibility matches Some(lease) ==> lease.projection_operation_id is None,
        staged_ids(stepped.visibility) == staged_ids(client.visibility),
{
}

/// How far a replay is from its lease.
pub open spec fn replay_phase(point: VisibilityPoint) -> int {
    match point {
        VisibilityPoint::Save => 2,
        VisibilityPoint::Lease => 1,
        _ => 0,
    }
}

/// How many steps a replay has left at most once it holds its lease.
pub open spec fn operations_left(replay: VisibilityReplay) -> int {
    3 * (replay.operations@.len() - replay.at) + (match replay.point {
        VisibilityPoint::Projection => 2int,
        VisibilityPoint::Routes => 1int,
        _ => 0int,
    })
}

/// A replay comes to an end: every step brings it closer.
pub proof fn law_visibility_replay_comes_to_an_end(
    before: VisibilityReplay,
    after: VisibilityReplay,
    client: AppClient,
    stepped: AppClient,
    event: VisibilityEvent,
    action: VisibilityAction,
)
    requires
        before.wf(),
        answers_replay(before.point, event),
        replay_of_visibility_steps(before, after, client, stepped, event, action),
    ensures
        after.point is Ended || replay_phase(after.point) < replay_phase(before.point) || {
            &&& replay_phase(after.point) == replay_phase(before.point)
            &&& 0 <= operations_left(after) < operations_left(before)
        },
{
}

} // verus!
