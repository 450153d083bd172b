//! Retrying a rebuild of the group subscriptions that waits behind what was ingested:
//! the routes are computed anew before anything is subscribed.

use crate::client::app_client::AppClient;
use crate::client::summary::SlotsContent;
use crate::client::sync::refreshed;
use crate::error::AppError;
use vstd::prelude::*;

verus! {

/// What a retry waits for.
#[derive(Clone, Copy, Debug, PartialEq, Eq, Structural)]
pub enum RetryPoint {
    Routes,
    /// The save of state that was retired with its routes.
    Save,
    Groups,
    /// The transport, where the account was not active on it.
    Transport,
    Ended,
}

/// One retry.
#[derive(Clone, Copy, Debug, PartialEq, Eq, Structural)]
pub struct SubscriptionRetry {
    pub point: RetryPoint,
}

/// What the step that a retry waits for brought.
pub enum RetryEvent {
    RoutesRefreshed { state_pruned: bool },
    Saved,
    Synced,
    /// The groups could not be subscribed: the account is not active on the transport.
    NotActive,
    Prepared,
    Failed { error: AppError },
}

/// What a retry asks for.
pub enum RetryAction {
    RefreshRoutes,
    SaveState,
    SyncGroups,
    /// Activate the account, with its inbox and every group.
    Prepare,
    Ended { result: Result<(), AppError> },
}

/// Whether an event answers what a retry waits for.
pub open spec fn answers_retry(point: RetryPoint, event: RetryEvent) -> bool {
    match event {
        RetryEvent::RoutesRefreshed { .. } => point is Routes,
        RetryEvent::Saved => point is Save,
        RetryEvent::Synced => point is Groups,
        RetryEvent::NotActive => point is Groups,
        RetryEvent::Prepared => point is Transport,
        RetryEvent::Failed { .. } => !(point is Ended),
    }
}

/// How a retry ends well: the rebuild is no longer due.
pub open spec fn disarms(
    after: SubscriptionRetry,
    client: AppClient,
    stepped: AppClient,
    action: RetryAction,
) -> bool {
    &&& stepped == (AppClient { slots: stepped.slots, ..client })
    &&& stepped.slots@ == refreshed(client.slots@)
    &&& after.point is Ended
    &&& action == (RetryAction::Ended { result: Ok::<(), AppError>(()) })
}

/// How a retry and its client step.
pub open spec fn retry_steps(
    after: SubscriptionRetry,
    client: AppClient,
    stepped: AppClient,
    event: RetryEvent,
    action: RetryAction,
) -> bool {
    match event {
        RetryEvent::RoutesRefreshed { state_pruned } => {
            &&& stepped == client
            &&& if state_pruned {
                after.point is Save && action is SaveState
            } else {
                after.point is Groups && action is SyncGroups
            }
        },
        RetryEvent::Saved => stepped == client && after.point is Groups && action is SyncGroups,
        RetryEvent::Synced => disarms(after, client, stepped, action),
        RetryEvent::NotActive => stepped == client && after.point is Transport
            && action is Prepare,
        RetryEvent::Prepared => disarms(after, client, stepped, action),
        RetryEvent::Failed { error } => {
            &&& stepped == client
            &&& after.point is Ended
            &&& action == (RetryAction::Ended { result: Err::<(), AppError>(error) })
        },
    }
}

impl SubscriptionRetry {
    /// Begins a retry, where a rebuild is due.
    pub fn begin(client: &AppClient) -> (begun: (Self, RetryAction))
        ensures
            if client.slots@.refresh {
                begun.0.point is Routes && begun.1 is RefreshRoutes
            } else {
                begun.0.point is Ended && begun.1 == (RetryAction::Ended {
                    result: Ok::<(), AppError>(()),
                })
            },
    {
        if client.slots.has_pending_runtime_group_subscription_refresh() {
            (SubscriptionRetry { point: RetryPoint::Routes }, RetryAction::RefreshRoutes)
        } else {
            (
                SubscriptionRetry { point: RetryPoint::Ended },
                RetryAction::Ended { result: Ok(()) },
            )
        }
    }

    fn disarm(&mut self, client: &mut AppClient) -> (action: RetryAction)
        ensures
            disarms(*final(self), *old(client), *final(client), action),
    {
        let _ = client.note_subscription_refresh(Ok(()));
        self.point = RetryPoint::Ended;
        RetryAction::Ended { result: Ok(()) }
    }

    /// Makes a step.
    pub fn step(&mut self, client: &mut AppClient, event: RetryEvent) -> (action: RetryAction)
        requires
            answers_retry(old(self).point, event),
        ensures
            retry_steps(*final(self), *old(client), *final(client), event, action),
    {
        match event {
            RetryEvent::RoutesRefreshed { state_pruned } => {
                if state_pruned {
                    self.point = RetryPoint::Save;
                    RetryAction::SaveState
                } else {
                    self.point = RetryPoint::Groups;
                    RetryAction::SyncGroups
                }
            },
            RetryEvent::Saved => {
                self.point = RetryPoint::Groups;
                RetryAction::SyncGroups
            },
            RetryEvent::Synced => self.disarm(client),
            RetryEvent::NotActive => {
                self.point = RetryPoint::Transport;
                RetryAction::Prepare
            },
            RetryEvent::Prepared => self.disarm(client),
            RetryEvent::Failed { error } => {
                self.point = RetryPoint::Ended;
                RetryAction::Ended { result: Err(error) }
            },
        }
    }
}

/// Nothing is subscribed from routes of before: the groups are asked for only once the
/// routes were computed anew, and saved where that retired state.
pub proof fn law_groups_are_subscribed_by_new_routes(
    before: SubscriptionRetry,
    after: SubscriptionRetry,
    client: AppClient,
    stepped: AppClient,
    event: RetryEvent,
    action: RetryAction,
)
    requires
        answers_retry(before.point, event),
        retry_steps(after, client, stepped, event, action),
        action is SyncGroups,
    ensures
        event is Saved || event == (RetryEvent::RoutesRefreshed { state_pruned: false }),
        before.point is Routes || before.point is Save,
{
}

/// A due rebuild stays due until the groups are subscribed or the transport is
/// prepared: no other step lifts it, and none touches anything else.
pub proof fn law_failed_retry_stays_due(
    after: SubscriptionRetry,
    client: AppClient,
    stepped: AppClient,
    event: RetryEvent,
    action: RetryAction,
)
    requires
        retry_steps(after, client, stepped, event, action),
    ensures
        stepped == (AppClient { slots: stepped.slots, ..client }),
        !(event is Synced) && !(event is Prepared) ==> stepped == client,
        event is Synced || event is Prepared ==> stepped.slots@ == (SlotsContent {
            refresh: false,
            ..client.slots@
        }),
{
}

/// How many steps a retry has left at most.
pub open spec fn retry_left(point: RetryPoint) -> int {
    match point {
        RetryPoint::Routes => 4,
        RetryPoint::Save => 3,
        RetryPoint::Groups => 2,
        RetryPoint::Transport => 1,
        RetryPoint::Ended => 0,
    }
}

/// A retry comes to an end: every step brings it closer.
pub proof fn law_retry_comes_to_an_end(
    before: SubscriptionRetry,
    after: SubscriptionRetry,
    client: AppClient,
    stepped: AppClient,
    event: RetryEvent,
    action: RetryAction,
)
    requires
        answers_retry(before.point, event),
        retry_steps(after, client, stepped, event, action),
    ensures
        0 <= retry_left(after.point) < retry_left(before.point),
{
}

} // verus!
