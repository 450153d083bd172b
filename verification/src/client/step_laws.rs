//! What the client's runs do at each of their steps: what they ask for next, what they keep
//! and what they tell.

use crate::client::app_client::AppClient;
use crate::client::checkpoint_run::{
    checkpoint_begins, checkpoint_steps, CheckpointAction, CheckpointEvent, PrefixCheckpoint,
};
use crate::client::drain::DrainVerdict;
use crate::client::drain_run::{drain_steps, DrainAction, DrainEvent, DrainRun};
use crate::client::effects::{
    completes_projected, completes_suppressed, event_report, EffectsPass, ObservationSeam,
    ProjectedEvent,
};
use crate::client::events::{event_group, outbox_key, GroupEvent};
use crate::client::events_run::{events_steps, EventsAction, EventsEvent, EventsRun};
use crate::client::observe::OutcomeContent;
use crate::client::pass::{answers, pass_steps, PassAction, PassEvent, TransportPass};
use crate::client::projection_run::{
    projection_steps, woken_groups, ProjectionAction, ProjectionEvent, ProjectionKind,
    ProjectionOutcome,
    ProjectionRun,
};
use crate::client::reconcile::TransportReconciliationWork;
use crate::client::reconcile_run::{
    next_route, reconcile_steps, ReconcileAction, ReconcileEvent, ReconcileRun,
};
use crate::client::summary::{SummaryContent, SyncSummary};
use crate::client::sync::EpochBackfillRunOutcome;
use crate::client::visibility::AccountDeviceEffects;
use crate::error::AppError;
use crate::order::{lemma_extend_unique, lemma_push_contains};
use crate::text::hex_text;
use vstd::prelude::*;

verus! {

/// A catch-up reconciles stored history exactly where it has a floor to reconcile up to, and
/// drains the session before the relays.
pub proof fn law_catch_up_reconciles_from_its_floor(
    before: TransportPass,
    after: TransportPass,
    client: AppClient,
    stepped: AppClient,
    action: PassAction,
)
    requires
        pass_steps(before, after, client, stepped, PassEvent::Done, action),
    ensures
        before.point is Prepare ==> (match before.since {
            Some(floor) => action == (PassAction::Reconcile { until: floor }),
            None => action is DrainSession,
        }),
        before.point is Reconcile ==> action is DrainSession,
        before.point is Session ==> action is DrainRelay,
        before.point is Visibility ==> action is RefreshRoutes,
        before.point is HandOff ==> action is Activate,
        before.point is Activate ==> action is SyncGroups,
        before.point is Groups ==> (if before.kind is OverflowReplay {
            action is DrainRelay
        } else {
            action is DrainSession
        }),
{
}

/// Subscriptions that were rebuilt are not due again; no other step says so of them.
pub proof fn law_rebuilt_subscriptions_are_not_due(
    before: TransportPass,
    after: TransportPass,
    client: AppClient,
    stepped: AppClient,
    event: PassEvent,
    action: PassAction,
)
    requires
        answers(before.point, event),
        pass_steps(before, after, client, stepped, event, action),
    ensures
        event is Done && (before.point is Groups || before.point is Reconcile || (
        before.point is Prepare && before.since is None)) ==> !stepped.slots@.refresh
            && !stepped.slots@.uncheckpointed_refresh,
        !(event is Done && (before.point is Groups || before.point is Reconcile
            || before.point is Prepare)) ==> stepped.slots@.refresh == client.slots@.refresh,
        stepped.slots@.uncheckpointed == client.slots@.uncheckpointed,
{
}

/// A known drop is always replayed before a catch-up or a repair ends.
pub proof fn law_known_drop_is_replayed(
    before: TransportPass,
    after: TransportPass,
    client: AppClient,
    stepped: AppClient,
    verdict: DrainVerdict,
    action: PassAction,
)
    requires
        !(before.kind is OverflowReplay),
        pass_steps(before, after, client, stepped, PassEvent::Drained { verdict }, action),
    ensures
        action is RecoverOverflow <==> verdict is Overflow
            || client.delivery_overflow_recovery_pending,
        !(action is RecoverOverflow) && before.kind is CatchUp ==> action == (PassAction::Finish {
            verdict,
        }),
        !(action is RecoverOverflow) && before.kind is Repair ==> (action is Finish
            <==> verdict is Complete) && (action is Fail <==> !(verdict is Complete)),
{
}

/// A repair runs the replays that wait before it activates the transport, as often as there
/// are any, and succeeds with one that is confirmed.
pub proof fn law_repair_runs_what_waits(
    before: TransportPass,
    after: TransportPass,
    client: AppClient,
    stepped: AppClient,
    outcome: EpochBackfillRunOutcome,
    action: PassAction,
)
    requires
        answers(before.point, PassEvent::Replayed { outcome }),
        pass_steps(before, after, client, stepped, PassEvent::Replayed { outcome }, action),
    ensures
        outcome is NotPending ==> action is Activate,
        outcome is Deferred && before.attempts_left > 1 ==> action is RunPendingReplay
            && after.attempts_left == before.attempts_left - 1,
        outcome is Deferred && before.attempts_left <= 1 ==> action is Activate,
        outcome matches EpochBackfillRunOutcome::Incomplete(summary) ==> action == (
        PassAction::HandOff { summary }),
        outcome is Completed && !client.delivery_overflow_recovery_pending ==> action == (
        PassAction::Finish { verdict: DrainVerdict::Complete }),
        outcome is Completed && client.delivery_overflow_recovery_pending
            ==> action is RecoverOverflow,
{
}

/// A step that fails ends the pass with its error. Nothing that is owed is handed out with it.
pub proof fn law_failed_pass_hands_nothing_out(
    before: TransportPass,
    after: TransportPass,
    client: AppClient,
    stepped: AppClient,
    error: AppError,
    action: PassAction,
)
    requires
        pass_steps(before, after, client, stepped, PassEvent::Failed { error }, action),
    ensures
        after.point is Ended,
        stepped.slots@ == client.slots@,
        action matches PassAction::Fail { failure } && failure.source == error
            && failure.partial_summary@.messages.len() == 0 && failure.partial_summary@.events.len()
            == 0 && failure.partial_summary@.joined_groups.len() == 0,
        action matches PassAction::Fail { failure } && (failure.stage is TransportActivation
            <==> before.point is Activate || before.point is Reconcile),
        action matches PassAction::Fail { failure } && (failure.stage is GroupSubscriptionSync
            <==> before.point is Groups),
        action matches PassAction::Fail { failure } && (failure.stage is StatePersist
            <==> before.point is Visibility || before.point is Routes || before.point is Save),
{
}

/// A delivery that was seen before is skipped, and every other is taken in.
pub proof fn law_only_seen_deliveries_are_skipped(
    before: DrainRun,
    after: DrainRun,
    client: AppClient,
    stepped: AppClient,
    event_id_hex: String,
    author: Option<String>,
    now_ms: u64,
    action: DrainAction,
)
    requires
        drain_steps(
            before,
            after,
            client,
            stepped,
            DrainEvent::Received { event_id_hex, author },
            now_ms,
            action,
        ),
    ensures
        client.seen_events.spec_contains(event_id_hex@) <==> action is RecordSkipped,
        !client.seen_events.spec_contains(event_id_hex@) <==> action is Ingest,
        action is Ingest ==> after.current@ == event_id_hex@,
        after.drain.silence_started_ms == now_ms,
        stepped == client,
{
}

/// A drop ends the drain, and the client remembers it with its marker. Where the marker could
/// not be stored the drain fails instead, and the cursor goes back to where the drain began.
pub proof fn law_drop_is_remembered(
    before: DrainRun,
    after: DrainRun,
    client: AppClient,
    stepped: AppClient,
    marker: Result<u64, AppError>,
    now_ms: u64,
    action: DrainAction,
)
    requires
        drain_steps(
            before,
            after,
            client,
            stepped,
            DrainEvent::Overflowed { marker },
            now_ms,
            action,
        ),
    ensures
        marker matches Ok(token) ==> stepped.delivery_overflow_recovery_pending
            && stepped.delivery_overflow_recovery_marker_token == Some(token) && action == (
        DrainAction::Conclude { verdict: DrainVerdict::Overflow })
            && stepped.last_transport_timestamp == client.last_transport_timestamp,
        marker is Err ==> action is Fail && stepped.last_transport_timestamp
            == before.drain.cursor_before_secs && stepped.delivery_overflow_recovery_pending
            == client.delivery_overflow_recovery_pending,
        stepped.slots == client.slots,
        stepped.seen_events == client.seen_events,
{
}

/// A delivery that was taken in owes its report. It is seen from then on unless it has to
/// stay fetchable, and what was seen before still is.
pub proof fn law_taken_delivery_owes_its_report(
    before: DrainRun,
    after: DrainRun,
    client: AppClient,
    stepped: AppClient,
    event: DrainEvent,
    now_ms: u64,
    action: DrainAction,
)
    requires
        drain_steps(before, after, client, stepped, event, now_ms, action),
    ensures
        event matches DrainEvent::Ingested { ingest, summary } ==> {
            &&& stepped.slots@.owed() == client.slots@.owed().followed_by(summary@)
            &&& !ingest.must_stay_fetchable ==> stepped.seen_events.spec_contains(before.current@)
            &&& ingest.must_stay_fetchable ==> stepped.seen_events.sequence()
                == client.seen_events.sequence()
            &&& ingest.routes_dirty ==> stepped.slots@.uncheckpointed_refresh
            &&& stepped.last_transport_timestamp == client.last_transport_timestamp
        },
        !(event is Ingested) ==> stepped.slots == client.slots && stepped.seen_events
            == client.seen_events,
        forall|id: Seq<char>| #[trigger]
            client.seen_events.sequence().contains(id) ==> stepped.seen_events.sequence().contains(
                id,
            ),
{
    let seen = client.seen_events.sequence();
    if let DrainEvent::Ingested { ingest, summary } = event {
        lemma_push_contains(seen, before.current@, before.current@);
        assert forall|id: Seq<char>| #[trigger] seen.contains(id) implies
            stepped.seen_events.sequence().contains(id) by {
            lemma_push_contains(seen, before.current@, id);
        }
        if let Some(pending) = client.slots@.uncheckpointed {
            let done = match client.slots@.checkpointed {
                Some(settled) => settled,
                None => SummaryContent::nothing(),
            };
            let one = done.followed_by(pending.followed_by(summary@));
            let two = done.followed_by(pending).followed_by(summary@);
            assert(one.joined_groups =~= two.joined_groups);
            assert(one.messages =~= two.messages);
            assert(one.events =~= two.events);
            assert(one.projection_updates =~= two.projection_updates);
            assert(one.epoch_stall_escalations =~= two.epoch_stall_escalations);
        }
    }
}

/// A checkpoint recomputes the routes where anything came in or changed them, or a change is
/// still due; otherwise it leaves them.
pub proof fn law_checkpoint_recomputes_changed_routes(
    begun: PrefixCheckpoint,
    client: AppClient,
    stepped: AppClient,
    routes_dirty: bool,
    deliveries: u64,
    action: CheckpointAction,
)
    requires
        checkpoint_begins(begun, client, stepped, routes_dirty, deliveries, action),
    ensures
        action is RefreshRoutes <==> deliveries > 0 || routes_dirty
            || client.slots@.uncheckpointed_refresh,
        action is RefreshRoutes || action is ReadOverflow,
        routes_dirty || client.slots@.uncheckpointed_refresh
            ==> stepped.slots@.uncheckpointed_refresh,
        stepped.slots@.uncheckpointed == client.slots@.uncheckpointed,
        stepped.checkpointed_transport_timestamp == client.checkpointed_transport_timestamp,
{
}

/// A checkpoint stores the state after it looked for a drop, and succeeds once that is stored.
pub proof fn law_checkpoint_stores_before_it_succeeds(
    before: PrefixCheckpoint,
    after: PrefixCheckpoint,
    client: AppClient,
    stepped: AppClient,
    event: CheckpointEvent,
    action: CheckpointAction,
)
    requires
        checkpoint_steps(before, after, client, stepped, event, action),
    ensures
        event is RoutesRefreshed ==> action is ReadOverflow,
        event is OverflowRead <==> action is SaveState,
        event is Saved <==> action == (CheckpointAction::Ended { result: Ok::<(), AppError>(()) }),
        event matches CheckpointEvent::Failed { error } ==> action == (CheckpointAction::Ended {
            result: Err::<(), AppError>(error),
        }),
        event matches CheckpointEvent::RoutesRefreshed { routing_changed } ==> after.routes_changed
            == routing_changed,
{
}

/// A pass asks relays for a route exactly where its inventory reaches back far enough, and
/// moves on to the next route otherwise.
pub proof fn law_route_is_asked_for_where_its_inventory_reaches(
    before: ReconcileRun,
    after: ReconcileRun,
    since: u64,
    action: ReconcileAction,
)
    requires
        reconcile_steps(before, after, ReconcileEvent::Inventory { since }, action),
        0 <= before.at < before.work@.len(),
        before.at < usize::MAX,
    ensures
        since <= before.until <==> action is Attempt,
        action is Attempt ==> action == (ReconcileAction::Attempt { index: before.at, since }),
        !(action is Attempt) ==> after.at > before.at,
        after.tally == before.tally,
{
    lemma_next_route(before.work@, before.at + 1);
}

proof fn lemma_next_route(work: Seq<TransportReconciliationWork>, from: int)
    requires
        0 <= from <= work.len(),
    ensures
        from <= next_route(work, from) <= work.len(),
        forall|i: int|
            from <= i < next_route(work, from) ==> (#[trigger] work[i]).spec_route() is None,
        next_route(work, from) < work.len() ==> work[next_route(work, from)].spec_route() is Some,
    decreases work.len() - from,
{
    if from < work.len() && work[from].spec_route() is None {
        lemma_next_route(work, from + 1);
    }
}

/// A pass over routes turns to every one of them in order: after an attempt it goes to the
/// next that has a route, and it ends, with what it counted, only where none is left.
pub proof fn law_pass_leaves_out_no_route(
    before: ReconcileRun,
    after: ReconcileRun,
    event: ReconcileEvent,
    action: ReconcileAction,
    i: int,
)
    requires
        reconcile_steps(before, after, event, action),
        0 <= before.at < before.work@.len(),
        event is Attempted,
        before.at < i < before.work@.len(),
        before.work@[i].spec_route() is Some,
    ensures
        action is MoveCursor,
        after.at <= i,
        before.at < after.at,
{
    lemma_next_route(before.work@, before.at + 1);
}

/// A group whose delivery was buffered is woken, and so is every group that the effects name;
/// none that was awake is forgotten and no other is woken.
pub proof fn law_buffered_group_is_woken(
    groups: Seq<Seq<u8>>,
    kind: ProjectionKind,
    effects: AccountDeviceEffects,
    group: Seq<u8>,
)
    ensures
        woken_groups(groups, kind, effects).contains(group) <==> groups.contains(group)
            || effects.pending_convergence.deep_view().contains(group) || (
        kind matches ProjectionKind::Inbound { outcome, .. } && outcome.deep_view()
            == OutcomeContent::Buffered(group)),
{
    let named = effects.pending_convergence.deep_view();
    lemma_extend_unique(groups, named);
    if let ProjectionKind::Inbound { outcome, .. } = kind {
        if let OutcomeContent::Buffered(own) = outcome.deep_view() {
            lemma_push_contains(groups, own, group);
            lemma_extend_unique(crate::order::push_unique(groups, own), named);
        }
    }
}

/// A delivery that was not refused moves the cursor on, unless it is frozen or a drop is
/// known: up to its own time where that can be believed, and never back.
pub proof fn law_taken_delivery_moves_the_cursor(
    before: ProjectionRun,
    after: ProjectionRun,
    client: AppClient,
    stepped: AppClient,
    now: u64,
    max_future_skew_secs: u64,
    overflow_pending: bool,
    action: ProjectionAction,
)
    requires
        projection_steps(
            before,
            after,
            client,
            stepped,
            ProjectionEvent::EvidenceObserved { now, max_future_skew_secs, overflow_pending },
            action,
        ),
        now + max_future_skew_secs <= u64::MAX,
    ensures
        before.kind matches ProjectionKind::Inbound { timestamp, outcome, .. } ==> {
            &&& outcome.deep_view() is ResourceRefused || overflow_pending
                || client.cursor_policy is Frozen ==> stepped.last_transport_timestamp
                == client.last_transport_timestamp
            &&& !(outcome.deep_view() is ResourceRefused || overflow_pending
                || client.cursor_policy is Frozen) ==> (
            stepped.last_transport_timestamp matches Some(cursor) && cursor <= now
                + max_future_skew_secs && (timestamp <= now + max_future_skew_secs ==> cursor
                >= timestamp) && (client.last_transport_timestamp matches Some(earlier) ==> (earlier
                <= now + max_future_skew_secs ==> cursor >= earlier)))
        },
        !(before.kind is Inbound) ==> stepped == client,
{
}

/// A suppressed event tells nothing, but its message is acknowledged.
pub proof fn law_suppressed_event_is_acknowledged(
    client: AppClient,
    stepped: AppClient,
    pass: EffectsPass,
    passed: EffectsPass,
    event: GroupEvent,
    routes_changed: bool,
)
    requires
        completes_suppressed(client, stepped, pass, passed, event, routes_changed),
    ensures
        outbox_key(event.deep_view()) matches Some(key) ==>
            stepped.pending_application_event_acks.sequence().contains(key),
        outbox_key(event.deep_view()) is None ==> stepped.pending_application_event_acks.sequence()
            == client.pending_application_event_acks.sequence(),
        passed.summary == pass.summary,
        stepped.slots@.owed() == client.slots@.owed(),
        stepped.slots@.uncheckpointed_refresh <==> client.slots@.uncheckpointed_refresh
            || routes_changed,
        stepped.last_transport_timestamp == client.last_transport_timestamp,
{
    if let Some(key) = outbox_key(event.deep_view()) {
        lemma_push_contains(client.pending_application_event_acks.sequence(), key, key);
    }
    let nothing = SummaryContent::nothing();
    lemma_nothing_adds_nothing(client.slots@.owed());
    if let Some(pending) = client.slots@.uncheckpointed {
        lemma_nothing_adds_nothing(pending);
    } else {
        let done = match client.slots@.checkpointed {
            Some(settled) => settled,
            None => nothing,
        };
        lemma_nothing_adds_nothing(done);
    }
}

proof fn lemma_nothing_adds_nothing(summary: SummaryContent)
    ensures
        summary.followed_by(SummaryContent::nothing()) == summary,
{
    let joined = summary.followed_by(SummaryContent::nothing());
    assert(joined.joined_groups =~= summary.joined_groups);
    assert(joined.messages =~= summary.messages);
    assert(joined.events =~= summary.events);
    assert(joined.projection_updates =~= summary.projection_updates);
    assert(joined.epoch_stall_escalations =~= summary.epoch_stall_escalations);
}

/// What an event tells: all of its report but its gossip, and, where it is observed live, its
/// system rows.
pub proof fn law_gossip_is_not_told(seam: ObservationSeam, projected: ProjectedEvent)
    ensures
        ({
            let report = event_report(seam, projected);
            &&& report.joined_groups == projected.summary@.joined_groups
            &&& report.events == projected.summary@.events
            &&& projected.gossip_message_id_hex is None ==> report.messages
                == projected.summary@.messages
            &&& seam is Live ==> report.projection_updates == projected.summary@.projection_updates
                + projected.system_rows@
            &&& seam is Drained ==> report.projection_updates
                == projected.summary@.projection_updates
        }),
        forall|i: int|
            #![trigger event_report(seam, projected).messages[i]]
            0 <= i < event_report(seam, projected).messages.len() ==> (
            projected.gossip_message_id_hex matches Some(id) ==> event_report(
                seam,
                projected,
            ).messages[i].message_id_hex@ != id@),
{
    if let Some(id) = projected.gossip_message_id_hex {
        let shown = event_report(seam, projected).messages;
        assert forall|i: int| 0 <= i < shown.len() implies (
        #[trigger] shown[i]).message_id_hex@ != id@ by {
            crate::client::drain_laws::law_dropped_message_is_gone(
                projected.summary@.messages,
                id@,
                shown[i],
            );
            assert(shown.contains(shown[i]));
        }
    }
}

/// A projected event is acknowledged unless it brings a deleted group back whose routes were
/// not adopted yet. Live, its report is told at once; drained, it is owed.
pub proof fn law_projected_event_is_told(
    client: AppClient,
    stepped: AppClient,
    pass: EffectsPass,
    passed: EffectsPass,
    event: GroupEvent,
    projected: ProjectedEvent,
)
    requires
        completes_projected(client, stepped, pass, passed, event, projected),
    ensures
        projected.crossed is None ==> (outbox_key(event.deep_view()) matches Some(key) ==>
            stepped.pending_application_event_acks.sequence().contains(key)),
        projected.crossed matches Some(crossing) ==> (!crossing.prior_routes_adopted ==>
            stepped.pending_application_event_acks.sequence()
                == client.pending_application_event_acks.sequence()),
        projected.group_record_changed ==> (event_group(event.deep_view()) matches Some(group) ==>
            stepped.pending_group_projection_updates.sequence().contains(hex_text(group))),
        !projected.group_record_changed ==> stepped.pending_group_projection_updates.sequence()
            == client.pending_group_projection_updates.sequence(),
        pass.seam is Live ==> stepped.slots@.uncheckpointed == client.slots@.uncheckpointed
            && passed.summary@ == pass.summary@.followed_by(event_report(pass.seam, projected)),
        pass.seam is Drained ==> passed.summary@ == pass.summary@ && stepped.slots@.uncheckpointed
            is Some,
        projected.routes_dirty || projected.groups_before != projected.groups_after
            ==> stepped.slots@.uncheckpointed_refresh && passed.routes_dirty,
{
    if let Some(key) = outbox_key(event.deep_view()) {
        lemma_push_contains(client.pending_application_event_acks.sequence(), key, key);
    }
    if let Some(group) = event_group(event.deep_view()) {
        lemma_push_contains(
            client.pending_group_projection_updates.sequence(),
            hex_text(group),
            hex_text(group),
        );
    }
}

/// Every event of a batch is projected or suppressed in its turn. One that brings its group
/// back is projected; any other is projected where it is not suppressed.
pub proof fn law_every_event_has_its_turn(
    before: EventsRun,
    after: EventsRun,
    client: AppClient,
    stepped: AppClient,
    event: EventsEvent,
    action: EventsAction,
)
    requires
        events_steps(before, after, client, stepped, event, action),
    ensures
        event matches EventsEvent::Crossing { crosses } ==> if crosses {
            action matches EventsAction::Project { index, crossing } && index == before.at
                && crossing is Some
        } else {
            action matches EventsAction::Suppress { index, frontier } && index == before.at
                && frontier is Some
        },
        event == (EventsEvent::Suppression { changed: None }) ==> action == (
        EventsAction::Project { index: before.at, crossing: None }),
        event is Projected || (event matches EventsEvent::Suppression { changed: Some(_) }) ==> {
            &&& after.at == before.at + 1
            &&& before.at + 1 >= before.events@.len() ==> action is ClearTerminalFrontiers
            &&& before.at + 1 < before.events@.len() ==> (match action {
                EventsAction::ReadCrossing { index, .. } => index == before.at + 1,
                EventsAction::Suppress { index, frontier } => index == before.at + 1
                    && frontier is None,
                _ => false,
            })
        },
{
}

/// A projection reports success only once its events were projected, and a delivery tells
/// what became of it.
pub proof fn law_projection_ends_after_its_events(
    before: ProjectionRun,
    after: ProjectionRun,
    client: AppClient,
    stepped: AppClient,
    event: ProjectionEvent,
    action: ProjectionAction,
)
    requires
        before.wf(),
        projection_steps(before, after, client, stepped, event, action),
    ensures
        event is Settled || event is Finalized || event is EvidenceObserved
            || event is StallDetected || event is Refreshed ==> !(action is Ended),
        action matches ProjectionAction::Ended { outcome: Ok(ended) } ==> (ended is Delivered ==>
            event is EventsProjected && before.kind is Inbound),
        action matches ProjectionAction::Ended { outcome: Ok(ended) } ==> (ended is Reported ==>
            event is Saved && before.kind is Group),
{
}

/// Once its routes are in order a catch-up prepares the transport. Any other pass runs what
/// waits where anything does, as often as there are replays, and activates the transport
/// otherwise.
pub proof fn law_pass_goes_on_from_its_routes(
    before: TransportPass,
    after: TransportPass,
    client: AppClient,
    stepped: AppClient,
    action: PassAction,
)
    requires
        pass_steps(
            before,
            after,
            client,
            stepped,
            PassEvent::RoutesRefreshed { state_pruned: false },
            action,
        ),
        client.backfill.deep_view().queued.len() < usize::MAX,
    ensures
        before.kind is CatchUp ==> action is PrepareTransport,
        !(before.kind is CatchUp) ==> (action is RunPendingReplay <==> client.backfill.deep_view(
        ).pending is Some || client.backfill.deep_view().queued.len() > 0),
        !(before.kind is CatchUp) && !(action is RunPendingReplay) ==> action is Activate,
        action is RunPendingReplay && client.backfill.deep_view().pending is Some
            ==> after.attempts_left == 1 + client.backfill.deep_view().queued.len(),
        action is RunPendingReplay && client.backfill.deep_view().pending is None
            ==> after.attempts_left == client.backfill.deep_view().queued.len(),
{
}

/// Routes that pruned the state are stored before the pass goes on.
pub proof fn law_pruned_state_is_stored_first(
    before: TransportPass,
    after: TransportPass,
    client: AppClient,
    stepped: AppClient,
    state_pruned: bool,
    action: PassAction,
)
    requires
        pass_steps(
            before,
            after,
            client,
            stepped,
            PassEvent::RoutesRefreshed { state_pruned },
            action,
        ),
    ensures
        state_pruned <==> action is SaveState,
{
}

/// What was recovered is owed. A recovery that leaves the drop known does not confirm
/// anything: a repair fails then, and any other pass tells of the drop.
pub proof fn law_recovery_confirms_only_without_a_drop(
    before: TransportPass,
    after: TransportPass,
    client: AppClient,
    stepped: AppClient,
    summary: SyncSummary,
    action: PassAction,
)
    requires
        pass_steps(before, after, client, stepped, PassEvent::Recovered { summary }, action),
    ensures
        client.delivery_overflow_recovery_pending && before.kind is Repair ==> action is Fail,
        client.delivery_overflow_recovery_pending && !(before.kind is Repair) ==> action == (
        PassAction::Finish { verdict: DrainVerdict::Overflow }),
        !client.delivery_overflow_recovery_pending ==> action == (PassAction::Finish {
            verdict: DrainVerdict::Complete,
        }),
        action is Finish ==> stepped.slots@.checkpointed is Some,
        action matches PassAction::Fail { failure } ==> stepped.slots@.checkpointed is None
            && failure.partial_summary@ == client.slots@.retain_checkpointed(summary@).report(),
{
}

/// A delivery that is projected again is seen from then on unless it has to stay fetchable,
/// and its report is owed; it stores the state before it refreshes routes that changed.
pub proof fn law_replayed_delivery_is_taken_in(
    before: ProjectionRun,
    after: ProjectionRun,
    client: AppClient,
    stepped: AppClient,
    pass: EffectsPass,
    action: ProjectionAction,
)
    requires
        before.kind is Inbound,
        before.replayed,
        projection_steps(
            before,
            after,
            client,
            stepped,
            ProjectionEvent::EventsProjected { pass, result: Ok(()) },
            action,
        ),
    ensures
        pass.routes_dirty <==> action is SaveState,
        !pass.routes_dirty <==> action is RefreshRoutes,
        pass.routes_dirty <==> after.point is SaveFirst,
        !pass.routes_dirty <==> after.point is Routes,
        after.saved_first == pass.routes_dirty,
        before.kind matches ProjectionKind::Inbound { event_id_hex, must_stay_fetchable, .. } ==> (
        if must_stay_fetchable {
            stepped.seen_events.sequence() == client.seen_events.sequence()
        } else {
            stepped.seen_events.sequence().contains(event_id_hex@)
        }),
        stepped.slots@.uncheckpointed is Some,
        pass.routes_dirty ==> stepped.slots@.uncheckpointed_refresh,
{
    if let ProjectionKind::Inbound { event_id_hex, .. } = before.kind {
        lemma_push_contains(
            client.seen_events.sequence(),
            event_id_hex@,
            event_id_hex@,
        );
    }
}

/// What a drain brought is projected again to the end: groups are pruned and the state is
/// stored. Live, it is settled at once, and where its events failed what was done is stored
/// first.
pub proof fn law_replayed_drain_prunes_its_groups(
    before: ProjectionRun,
    after: ProjectionRun,
    client: AppClient,
    stepped: AppClient,
    pass: EffectsPass,
    result: Result<(), AppError>,
    action: ProjectionAction,
)
    requires
        before.kind is Drained,
        projection_steps(
            before,
            after,
            client,
            stepped,
            ProjectionEvent::EventsProjected { pass, result },
            action,
        ),
    ensures
        result is Ok && before.replayed ==> action == (ProjectionAction::PruneGroups {
            refresh: true,
        }),
        result is Ok && !before.replayed ==> (action matches ProjectionAction::Ended { outcome }
            && outcome is Ok),
        result is Err && before.replayed ==> (action matches ProjectionAction::Ended { outcome }
            && outcome is Err) && stepped == client,
        result is Err && !before.replayed ==> action is RefreshRoutes || (
        action matches ProjectionAction::Ended { outcome } && outcome is Err),
{
}

/// A group's operation reports what is owed when it is stored. Projected again, it leaves
/// that to be handed out; an error is told instead of it.
pub proof fn law_stored_group_operation_is_reported(
    before: ProjectionRun,
    after: ProjectionRun,
    client: AppClient,
    stepped: AppClient,
    action: ProjectionAction,
)
    requires
        before.point is Save,
        projection_steps(before, after, client, stepped, ProjectionEvent::Saved, action),
    ensures
        after.point is Ended,
        before.failure matches Some(error) ==> action == (ProjectionAction::Ended {
            outcome: Err::<ProjectionOutcome, AppError>(error),
        }) && stepped == client,
        before.failure is None && before.kind is Group && before.publish_error is Some ==> (
        action matches ProjectionAction::Ended { outcome } && outcome is Err) && stepped == client,
        before.failure is None && before.kind is Group && before.publish_error is None
            && !before.replayed ==> (action matches ProjectionAction::Ended {
            outcome: Ok(ProjectionOutcome::Reported { summary }),
        } && summary@ == client.slots@.report()) && stepped.slots@.checkpointed is None,
        before.failure is None && before.kind is Group && before.publish_error is None
            && before.replayed ==> stepped.slots@.report() == client.slots@.report(),
{
    let handed = client.slots@.handed_out();
    let report = client.slots@.report();
    assert(handed.retain_checkpointed(report).report().epoch_stall_escalations
        =~= report.epoch_stall_escalations);
}

/// Routes that changed are due; where the state was stored before, they are due at once.
pub proof fn law_changed_routes_become_due(
    before: ProjectionRun,
    after: ProjectionRun,
    client: AppClient,
    stepped: AppClient,
    routing_changed: bool,
    state_pruned: bool,
    action: ProjectionAction,
)
    requires
        projection_steps(
            before,
            after,
            client,
            stepped,
            ProjectionEvent::RoutesRefreshed { routing_changed, state_pruned },
            action,
        ),
    ensures
        routing_changed ==> stepped.slots@.refresh || stepped.slots@.uncheckpointed_refresh,
        client.slots@.refresh ==> stepped.slots@.refresh,
        client.slots@.uncheckpointed_refresh ==> stepped.slots@.uncheckpointed_refresh,
        state_pruned && before.kind is Inbound ==> action is SaveState,
        before.kind is Inbound && !before.saved_first ==> action is SaveState,
        before.kind is Inbound && before.saved_first && !state_pruned ==> action is Ended,
        before.kind is Group && before.failure is None ==> action is PruneGroups,
        before.kind is Drained ==> action is SaveState,
        stepped.slots@.uncheckpointed == client.slots@.uncheckpointed,
{
}

/// Skipped deliveries are no reason to poll the relays more often than a wait lasts, and
/// where a wait has passed they are polled.
pub proof fn law_skipping_polls_once_a_wait(
    before: DrainRun,
    after: DrainRun,
    client: AppClient,
    stepped: AppClient,
    event_id_hex: String,
    author: Option<String>,
    now_ms: u64,
    action: DrainAction,
)
    requires
        client.seen_events.spec_contains(event_id_hex@),
        drain_steps(
            before,
            after,
            client,
            stepped,
            DrainEvent::Received { event_id_hex, author },
            now_ms,
            action,
        ),
        now_ms >= before.drain.gate_polled_at_ms,
    ensures
        action matches DrainAction::RecordSkipped { read } && (read
            <==> before.drain.completion is EndOfStoredEvents && now_ms
            - before.drain.gate_polled_at_ms >= before.drain.timings.drain_wait_ms),
        action matches DrainAction::RecordSkipped { read } && after.drain.gate_polled_at_ms == (
        if read {
            now_ms
        } else {
            before.drain.gate_polled_at_ms
        }),
{
}

/// A batch that was drained ends with the error of its publication, where there was one, and
/// its changed routes are due. A live one just ends.
pub proof fn law_drained_batch_tells_its_publication(
    before: EventsRun,
    after: EventsRun,
    client: AppClient,
    stepped: AppClient,
    action: EventsAction,
)
    requires
        events_steps(before, after, client, stepped, EventsEvent::Cleared, action),
    ensures
        before.pass.seam is Live ==> action == (EventsAction::Ended { result: Ok::<(), AppError>(())
        }) && stepped == client,
        before.pass.seam is Drained ==> (action matches EventsAction::Ended { result } && (
        match before.publish_error {
            Some(error) => result == Err::<(), AppError>(error),
            None => result is Ok,
        })),
        before.pass.seam is Drained ==> (stepped.slots@.uncheckpointed_refresh
            <==> client.slots@.uncheckpointed_refresh || before.pass.routes_dirty),
        stepped.slots@.uncheckpointed == client.slots@.uncheckpointed,
        stepped.pending_application_event_acks == client.pending_application_event_acks,
{
}

} // verus!
