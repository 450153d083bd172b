//! Storing the prefix that a drain ingested: the routes are computed anew where they
//! could have moved, the stored cursor follows unless a drop of the queue is known, and
//! a save that fails takes the cursor back.

use crate::client::app_client::AppClient;
use crate::client::drain::saturated;
use crate::client::summary::SlotsContent;
use crate::error::AppError;
use vstd::prelude::*;

verus! {

/// What a checkpoint waits for.
#[derive(Clone, Copy, Debug, PartialEq, Eq, Structural)]
pub enum CheckpointPoint {
    Routes,
    /// Whether the queue dropped a delivery.
    Overflow,
    Save,
    Ended,
}

/// The checkpoint of a prefix.
#[derive(Clone, Copy, Debug, PartialEq, Eq)]
pub struct PrefixCheckpoint {
    pub point: CheckpointPoint,
    pub routes_changed: bool,
    /// The stored cursor of before, to fall back to.
    pub cursor_before: Option<u64>,
}

/// What the step that a checkpoint waits for brought.
pub enum CheckpointEvent {
    RoutesRefreshed { routing_changed: bool },
    OverflowRead { pending: bool },
    Saved,
    Failed { error: AppError },
}

/// What a checkpoint asks for.
pub enum CheckpointAction {
    RefreshRoutes,
    ReadOverflow,
    SaveState,
    Ended { result: Result<(), AppError> },
}

/// Whether an event answers what a checkpoint waits for.
pub open spec fn answers_checkpoint(point: CheckpointPoint, event: CheckpointEvent) -> bool {
    match event {
        CheckpointEvent::RoutesRefreshed { .. } => point is Routes,
        CheckpointEvent::OverflowRead { .. } => point is Overflow,
        CheckpointEvent::Saved => point is Save,
        CheckpointEvent::Failed { .. } => point is Routes || point is Save,
    }
}

/// A client that remembers, besides what it did, whether its routes changed.
pub open spec fn remembers_routes(stepped: AppClient, client: AppClient, changed: bool) -> bool {
    stepped.slots@ == (SlotsContent {
        uncheckpointed_refresh: client.slots@.uncheckpointed_refresh || changed,
        ..client.slots@
    })
}

/// How a checkpoint begins.
pub open spec fn checkpoint_begins(
    begun: PrefixCheckpoint,
    client: AppClient,
    stepped: AppClient,
    routes_dirty: bool,
    deliveries: u64,
    action: CheckpointAction,
) -> bool {
    let recompute = deliveries > 0 || routes_dirty || client.slots@.uncheckpointed_refresh;
    &&& stepped == (AppClient {
        slots: stepped.slots,
        checkpoint_route_refresh_recomputes: if recompute {
            saturated(client.checkpoint_route_refresh_recomputes + 1)
        } else {
            client.checkpoint_route_refresh_recomputes
        },
        ..client
    })
    &&& remembers_routes(stepped, client, routes_dirty)
    &&& !begun.routes_changed
    &&& begun.cursor_before == client.checkpointed_transport_timestamp
    &&& if recompute {
        begun.point is Routes && action is RefreshRoutes
    } else {
        begun.point is Overflow && action is ReadOverflow
    }
}

/// How a checkpoint and its client step.
pub open spec fn checkpoint_steps(
    before: PrefixCheckpoint,
    after: PrefixCheckpoint,
    client: AppClient,
    stepped: AppClient,
    event: CheckpointEvent,
    action: CheckpointAction,
) -> bool {
    match event {
        CheckpointEvent::RoutesRefreshed { routing_changed } => {
            &&& stepped == client
            &&& after == (PrefixCheckpoint {
                point: CheckpointPoint::Overflow,
                routes_changed: routing_changed,
                ..before
            })
            &&& action is ReadOverflow
        },
        CheckpointEvent::OverflowRead { pending } => {
            &&& stepped == (AppClient {
                slots: stepped.slots,
                checkpointed_transport_timestamp: if pending {
                    client.checkpointed_transport_timestamp
                } else {
                    client.last_transport_timestamp
                },
                ..client
            })
            &&& remembers_routes(stepped, client, before.routes_changed)
            &&& after == (PrefixCheckpoint {
                point: CheckpointPoint::Save,
                cursor_before: client.checkpointed_transport_timestamp,
                ..before
            })
            &&& action is SaveState
        },
        CheckpointEvent::Saved => {
            &&& stepped == client
            &&& after == (PrefixCheckpoint { point: CheckpointPoint::Ended, ..before })
            &&& action == (CheckpointAction::Ended { result: Ok::<(), AppError>(()) })
        },
        CheckpointEvent::Failed { error } => {
            &&& stepped == (AppClient {
                checkpointed_transport_timestamp: if before.point is Save {
                    before.cursor_before
                } else {
                    client.checkpointed_transport_timestamp
                },
                ..client
            })
            &&& after == (PrefixCheckpoint { point: CheckpointPoint::Ended, ..before })
            &&& action == (CheckpointAction::Ended { result: Err::<(), AppError>(error) })
        },
    }
}

impl PrefixCheckpoint {
    /// Begins the checkpoint of a prefix.
    pub fn begin(client: &mut AppClient, routes_dirty: bool, deliveries: u64) -> (begun: (
        Self,
        CheckpointAction,
    ))
        ensures
            checkpoint_begins(
                begun.0,
                *old(client),
                *final(client),
                routes_dirty,
                deliveries,
                begun.1,
            ),
    {
        let recompute = client.begin_prefix_checkpoint(routes_dirty, deliveries);
        let (point, action) = if recompute {
            (CheckpointPoint::Routes, CheckpointAction::RefreshRoutes)
        } else {
            (CheckpointPoint::Overflow, CheckpointAction::ReadOverflow)
        };
        (
            PrefixCheckpoint {
                point,
                routes_changed: false,
                cursor_before: client.checkpointed_transport_timestamp,
            },
            action,
        )
    }

    /// Makes a step.
    pub fn step(&mut self, client: &mut AppClient, event: CheckpointEvent) -> (action:
        CheckpointAction)
        requires
            answers_checkpoint(old(self).point, event),
        ensures
            checkpoint_steps(
                *old(self),
                *final(self),
                *old(client),
                *final(client),
                event,
                action,
            ),
    {
        match event {
            CheckpointEvent::RoutesRefreshed { routing_changed } => {
                self.routes_changed = routing_changed;
                self.point = CheckpointPoint::Overflow;
                CheckpointAction::ReadOverflow
            },
            CheckpointEvent::OverflowRead { pending } => {
                self.cursor_before =
                client.advance_checkpoint_cursor(self.routes_changed, pending);
                self.point = CheckpointPoint::Save;
                CheckpointAction::SaveState
            },
            CheckpointEvent::Saved => {
                self.point = CheckpointPoint::Ended;
                CheckpointAction::Ended { result: Ok(()) }
            },
            CheckpointEvent::Failed { error } => {
                if let CheckpointPoint::Save = self.point {
                    client.revert_checkpoint_cursor(self.cursor_before);
                }
                self.point = CheckpointPoint::Ended;
                CheckpointAction::Ended { result: Err(error) }
            },
        }
    }
}

/// A checkpoint whose save fails leaves the stored cursor where it was, and nothing else
/// changed but that a rebuild of the subscriptions may be due.
pub proof fn law_failed_checkpoint_takes_its_cursor_back(
    waiting: PrefixCheckpoint,
    saving: PrefixCheckpoint,
    ended: PrefixCheckpoint,
    start: AppClient,
    moved: AppClient,
    back: AppClient,
    pending: bool,
    error: AppError,
    asked: CheckpointAction,
    answer: CheckpointAction,
)
    requires
        checkpoint_steps(
            waiting,
            saving,
            start,
            moved,
            CheckpointEvent::OverflowRead { pending },
            asked,
        ),
        checkpoint_steps(saving, ended, moved, back, CheckpointEvent::Failed { error }, answer),
    ensures
        back.checkpointed_transport_timestamp == start.checkpointed_transport_timestamp,
        back == (AppClient { slots: back.slots, ..start }),
        remembers_routes(back, start, waiting.routes_changed),
        answer == (CheckpointAction::Ended { result: Err::<(), AppError>(error) }),
{
}

/// Where a drop of the queue is known, no step of a checkpoint moves the stored cursor,
/// so that what was dropped is asked for again.
pub proof fn law_known_drop_holds_the_stored_cursor(
    before: PrefixCheckpoint,
    after: PrefixCheckpoint,
    client: AppClient,
    stepped: AppClient,
    event: CheckpointEvent,
    action: CheckpointAction,
)
    requires
        checkpoint_steps(before, after, client, stepped, event, action),
        event != (CheckpointEvent::OverflowRead { pending: false }),
        before.point is Save ==> before.cursor_before == client.checkpointed_transport_timestamp,
    ensures
        stepped.checkpointed_transport_timestamp == client.checkpointed_transport_timestamp,
        after.point is Save ==> after.cursor_before == stepped.checkpointed_transport_timestamp,
{
}

/// The stored cursor that a save takes along is the one up to which deliveries were
/// taken in, where no drop is known; and no step touches that one.
pub proof fn law_checkpoint_stores_how_far_deliveries_were_taken_in(
    before: PrefixCheckpoint,
    after: PrefixCheckpoint,
    client: AppClient,
    stepped: AppClient,
    event: CheckpointEvent,
    action: CheckpointAction,
)
    requires
        checkpoint_steps(before, after, client, stepped, event, action),
    ensures
        stepped.last_transport_timestamp == client.last_transport_timestamp,
        event == (CheckpointEvent::OverflowRead { pending: false })
            ==> stepped.checkpointed_transport_timestamp == client.last_transport_timestamp,
{
}

/// That a rebuild of the subscriptions is due is not forgotten by any step.
pub proof fn law_checkpoint_forgets_no_due_rebuild(
    before: PrefixCheckpoint,
    after: PrefixCheckpoint,
    client: AppClient,
    stepped: AppClient,
    event: CheckpointEvent,
    action: CheckpointAction,
)
    requires
        checkpoint_steps(before, after, client, stepped, event, action),
    ensures
        client.slots@.uncheckpointed_refresh ==> stepped.slots@.uncheckpointed_refresh,
        event is OverflowRead && before.routes_changed ==> stepped.slots@.uncheckpointed_refresh,
{
}

/// How many steps a checkpoint has left at most.
pub open spec fn checkpoint_left(point: CheckpointPoint) -> int {
    match point {
        CheckpointPoint::Routes => 3,
        CheckpointPoint::Overflow => 2,
        CheckpointPoint::Save => 1,
        CheckpointPoint::Ended => 0,
    }
}

/// A checkpoint comes to an end: every step brings it closer.
pub proof fn law_checkpoint_comes_to_an_end(
    before: PrefixCheckpoint,
    after: PrefixCheckpoint,
    client: AppClient,
    stepped: AppClient,
    event: CheckpointEvent,
    action: CheckpointAction,
)
    requires
        answers_checkpoint(before.point, event),
        checkpoint_steps(before, after, client, stepped, event, action),
    ensures
        0 <= checkpoint_left(after.point) < checkpoint_left(before.point),
{
}

} // verus!
