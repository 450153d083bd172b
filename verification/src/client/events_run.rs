//! The projection of one batch of engine events, event by event: what to ask
//! storage and the engine for each of them, and what the client keeps of it.

use crate::client::app_client::AppClient;
use crate::client::effects::{
    completes_projected, completes_suppressed, CrossedFrontier, EffectsPass, ObservationSeam,
    ProjectedEvent,
};
use crate::client::events::{event_group, event_group_id, GroupEvent};
use crate::client::summary::{SlotsContent, SummaryContent};
use crate::collections::KeyMap;
use crate::error::AppError;
use crate::order::push_unique;
use crate::text::{hex_encode, hex_text};
use vstd::prelude::*;

verus! {

/// What a batch waits for.
#[derive(Clone, Copy, Debug, PartialEq, Eq, Structural)]
pub enum EventsPoint {
    /// Whether the current event crosses the frontier of its deleted group.
    Crossing { frontier: u64 },
    /// Whether the current event is suppressed.
    Suppression,
    /// The projection of the current event; `crossing` where it brings a deleted
    /// group back.
    Projection { crossing: Option<u64> },
    /// The clearing of the frontiers of groups that ended.
    Clearing,
    Ended,
}

/// One batch.
pub struct EventsRun {
    pub pass: EffectsPass,
    pub events: Vec<GroupEvent>,
    /// The frontiers of the deleted groups among them, read before the first event.
    pub frontiers: KeyMap<String, u64>,
    pub at: usize,
    pub point: EventsPoint,
    /// A publish failure that rode the same batch.
    pub publish_error: Option<AppError>,
}

/// What the step that a batch waits for brought.
pub enum EventsEvent {
    Crossing { crosses: bool },
    /// Whether the routes changed, where the event is suppressed.
    Suppression { changed: Option<bool> },
    /// The event was projected. `prior_routes_adopted` counts where it brings a
    /// deleted group back.
    Projected { projected: ProjectedEvent, prior_routes_adopted: bool },
    /// The projection failed. `group_record_changed` says whether the group's record
    /// had changed in memory by that time.
    ProjectionFailed { error: AppError, group_record_changed: bool },
    Cleared,
    Failed { error: AppError },
}

/// What a batch asks for.
#[allow(inconsistent_fields)]
pub enum EventsAction {
    /// Decide whether the event at an index crosses a frontier.
    ReadCrossing { index: usize, frontier: u64 },
    /// Suppress the event at an index, if its group is deleted here.
    Suppress { index: usize, frontier: Option<u64> },
    Project { index: usize, crossing: Option<u64> },
    ClearTerminalFrontiers,
    Ended { result: Result<(), AppError> },
}

/// The frontier of the group of the event at an index, as it was when the batch
/// began.
pub open spec fn frontier_at(
    events: Seq<GroupEvent>,
    frontiers: KeyMap<String, u64>,
    index: int,
) -> Option<u64> {
    match event_group(events[index].deep_view()) {
        Some(group) => frontiers.lookup(hex_text(group)),
        None => None,
    }
}

/// How a batch turns to its next event, or to its end.
pub open spec fn turns(run: EventsRun, action: EventsAction) -> bool {
    if run.at < run.events@.len() {
        match frontier_at(run.events@, run.frontiers, run.at as int) {
            Some(frontier) => run.point == (EventsPoint::Crossing { frontier }) && action == (
            EventsAction::ReadCrossing { index: run.at, frontier }),
            None => run.point is Suppression && action == (EventsAction::Suppress {
                index: run.at,
                frontier: None,
            }),
        }
    } else {
        run.point is Clearing && action is ClearTerminalFrontiers
    }
}

/// Whether an event answers what a batch waits for.
pub open spec fn answers_batch(point: EventsPoint, event: EventsEvent) -> bool {
    match event {
        EventsEvent::Crossing { .. } => point is Crossing,
        EventsEvent::Suppression { .. } => point is Suppression,
        EventsEvent::Projected { .. } => point is Projection,
        EventsEvent::ProjectionFailed { .. } => point is Projection,
        EventsEvent::Cleared => point is Clearing,
        EventsEvent::Failed { .. } => !(point is Ended) && !(point is Projection),
    }
}

/// What a projection brought, with the frontier that its event crossed.
pub open spec fn crossing_of(crossing: Option<u64>, prior_routes_adopted: bool) -> Option<
    CrossedFrontier,
> {
    match crossing {
        Some(frontier) => Some(CrossedFrontier { frontier, prior_routes_adopted }),
        None => None,
    }
}

/// How a batch ends whose every event is complete.
pub open spec fn batch_ends(
    run: EventsRun,
    before: AppClient,
    after: AppClient,
    action: EventsAction,
) -> bool {
    match run.pass.seam {
        ObservationSeam::Live => after == before && action == (EventsAction::Ended {
            result: Ok::<(), AppError>(()),
        }),
        ObservationSeam::Drained => {
            &&& after == (AppClient { slots: after.slots, ..before })
            &&& after.slots@ == (SlotsContent {
                uncheckpointed_refresh: before.slots@.uncheckpointed_refresh
                    || run.pass.routes_dirty,
                ..before.slots@
            })
            &&& action == (EventsAction::Ended {
                result: match run.publish_error {
                    Some(error) => Err::<(), AppError>(error),
                    None => Ok::<(), AppError>(()),
                },
            })
        },
    }
}

/// What a batch keeps from step to step.
pub open spec fn same_batch(before: EventsRun, after: EventsRun) -> bool {
    &&& after.events == before.events
    &&& after.frontiers == before.frontiers
}

/// How a client marks the group of an event whose record changed, for the next save to
/// write.
pub open spec fn marks_group(
    before: AppClient,
    after: AppClient,
    event: GroupEvent,
    changed: bool,
) -> bool {
    &&& after == (AppClient {
        pending_group_projection_updates: after.pending_group_projection_updates,
        ..before
    })
    &&& after.pending_group_projection_updates.sequence() == (match event_group(
        event.deep_view(),
    ) {
        Some(group) => if changed {
            push_unique(before.pending_group_projection_updates.sequence(), hex_text(group))
        } else {
            before.pending_group_projection_updates.sequence()
        },
        None => before.pending_group_projection_updates.sequence(),
    })
}

/// How a batch and its client step.
pub open spec fn events_steps(
    before: EventsRun,
    after: EventsRun,
    client: AppClient,
    stepped: AppClient,
    event: EventsEvent,
    action: EventsAction,
) -> bool {
    &&& same_batch(before, after)
    &&& match event {
        EventsEvent::Failed { error } => {
            &&& stepped == client
            &&& after.pass == before.pass
            &&& after.at == before.at
            &&& after.point is Ended
            &&& action == (EventsAction::Ended { result: Err::<(), AppError>(error) })
        },
        EventsEvent::ProjectionFailed { error, group_record_changed } => {
            &&& marks_group(
                client,
                stepped,
                before.events@[before.at as int],
                group_record_changed,
            )
            &&& after.pass == before.pass
            &&& after.at == before.at
            &&& after.point is Ended
            &&& action == (EventsAction::Ended { result: Err::<(), AppError>(error) })
        },
        EventsEvent::Crossing { crosses } => {
            &&& stepped == client
            &&& after.pass == before.pass
            &&& after.at == before.at
            &&& after.publish_error == before.publish_error
            &&& before.point matches EventsPoint::Crossing { frontier } && if crosses {
                &&& after.point == (EventsPoint::Projection { crossing: Some(frontier) })
                &&& action == (EventsAction::Project {
                    index: before.at,
                    crossing: Some(frontier),
                })
            } else {
                &&& after.point is Suppression
                &&& action == (EventsAction::Suppress {
                    index: before.at,
                    frontier: Some(frontier),
                })
            }
        },
        EventsEvent::Suppression { changed } => {
            &&& after.publish_error == before.publish_error
            &&& match changed {
                None => {
                    &&& stepped == client
                    &&& after.pass == before.pass
                    &&& after.at == before.at
                    &&& after.point == (EventsPoint::Projection { crossing: None })
                    &&& action == (EventsAction::Project { index: before.at, crossing: None })
                },
                Some(routes_changed) => {
                    &&& completes_suppressed(
                        client,
                        stepped,
                        before.pass,
                        after.pass,
                        before.events@[before.at as int],
                        routes_changed,
                    )
                    &&& after.at == before.at + 1
                    &&& turns(after, action)
                },
            }
        },
        EventsEvent::Projected { projected, prior_routes_adopted } => {
            &&& after.publish_error == before.publish_error
            &&& after.at == before.at + 1
            &&& before.point matches EventsPoint::Projection { crossing } && completes_projected(
                client,
                stepped,
                before.pass,
                after.pass,
                before.events@[before.at as int],
                ProjectedEvent {
                    crossed: crossing_of(crossing, prior_routes_adopted),
                    ..projected
                },
            )
            &&& turns(after, action)
        },
        EventsEvent::Cleared => {
            &&& after.pass == before.pass
            &&& after.at == before.at
            &&& after.point is Ended
            &&& batch_ends(before, client, stepped, action)
        },
    }
}

impl EventsRun {
    /// Whether the batch is at one of its events while it waits for something of it.
    pub open spec fn wf(&self) -> bool {
        &&& self.at <= self.events@.len()
        &&& self.point is Crossing || self.point is Suppression || self.point is Projection
            ==> self.at < self.events@.len()
        &&& self.point is Clearing ==> self.at == self.events@.len()
    }

    fn turn(&mut self) -> (action: EventsAction)
        requires
            old(self).at <= old(self).events@.len(),
        ensures
            *final(self) == (EventsRun { point: final(self).point, ..*old(self) }),
            turns(*final(self), action),
            final(self).wf(),
    {
        if self.at >= self.events.len() {
            self.point = EventsPoint::Clearing;
            return EventsAction::ClearTerminalFrontiers;
        }
        let frontier = match event_group_id(&self.events[self.at]) {
            Some(group) => match self.frontiers.get(&hex_encode(group.bytes.as_slice())) {
                Some(frontier) => Some(*frontier),
                None => None,
            },
            None => None,
        };
        match frontier {
            Some(frontier) => {
                self.point = EventsPoint::Crossing { frontier };
                EventsAction::ReadCrossing { index: self.at, frontier }
            },
            None => {
                self.point = EventsPoint::Suppression;
                EventsAction::Suppress { index: self.at, frontier: None }
            },
        }
    }

    /// Begins a batch. A drained batch without events ends at once, by the publish
    /// failure that rode it, if any.
    pub fn begin(
        seam: ObservationSeam,
        events: Vec<GroupEvent>,
        frontiers: KeyMap<String, u64>,
        publish_error: Option<AppError>,
    ) -> (begun: (Self, EventsAction))
        ensures
            begun.0.pass.seam == seam,
            !begun.0.pass.routes_dirty,
            begun.0.pass.summary@ == SummaryContent::nothing(),
            begun.0.events == events,
            begun.0.frontiers == frontiers,
            begun.0.at == 0,
            begun.0.wf(),
            if seam is Drained && events@.len() == 0 {
                &&& begun.0.point is Ended
                &&& begun.1 == (EventsAction::Ended {
                    result: match publish_error {
                        Some(error) => Err::<(), AppError>(error),
                        None => Ok::<(), AppError>(()),
                    },
                })
            } else {
                turns(begun.0, begun.1) && begun.0.publish_error == publish_error
            },
    {
        let pass = EffectsPass::begin(seam);
        let drained = match seam {
            ObservationSeam::Drained => true,
            ObservationSeam::Live => false,
        };
        if drained && events.len() == 0 {
            let run = EventsRun {
                pass,
                events,
                frontiers,
                at: 0,
                point: EventsPoint::Ended,
                publish_error: None,
            };
            let result = match publish_error {
                Some(error) => Err(error),
                None => Ok(()),
            };
            return (run, EventsAction::Ended { result });
        }
        let mut run = EventsRun {
            pass,
            events,
            frontiers,
            at: 0,
            point: EventsPoint::Clearing,
            publish_error,
        };
        let action = run.turn();
        (run, action)
    }

    fn end(&mut self, client: &mut AppClient) -> (action: EventsAction)
        ensures
            batch_ends(*old(self), *old(client), *final(client), action),
            same_batch(*old(self), *final(self)),
            final(self).pass == old(self).pass,
            final(self).at == old(self).at,
            final(self).point is Ended,
    {
        self.point = EventsPoint::Ended;
        match self.pass.seam {
            ObservationSeam::Live => EventsAction::Ended { result: Ok(()) },
            ObservationSeam::Drained => {
                let error = self.publish_error.take();
                let result = match client.finish_drained_pass(&self.pass, error) {
                    Ok(()) => Ok(()),
                    Err(error) => Err(error),
                };
                EventsAction::Ended { result }
            },
        }
    }

    /// Makes a step.
    pub fn step(&mut self, client: &mut AppClient, event: EventsEvent) -> (action: EventsAction)
        requires
            old(self).wf(),
            answers_batch(old(self).point, event),
        ensures
            events_steps(*old(self), *final(self), *old(client), *final(client), event, action),
            final(self).wf(),
    {
        match event {
            EventsEvent::Failed { error } => {
                self.point = EventsPoint::Ended;
                EventsAction::Ended { result: Err(error) }
            },
            EventsEvent::ProjectionFailed { error, group_record_changed } => {
                if group_record_changed {
                    match event_group_id(&self.events[self.at]) {
                        Some(group) => client.mark_group_projection_dirty(group),
                        None => {},
                    }
                }
                self.point = EventsPoint::Ended;
                EventsAction::Ended { result: Err(error) }
            },
            EventsEvent::Crossing { crosses } => {
                let frontier: u64 = match self.point {
                    EventsPoint::Crossing { frontier } => frontier,
                    _ => 0,
                };
                if crosses {
                    self.point = EventsPoint::Projection { crossing: Some(frontier) };
                    EventsAction::Project { index: self.at, crossing: Some(frontier) }
                } else {
                    self.point = EventsPoint::Suppression;
                    EventsAction::Suppress { index: self.at, frontier: Some(frontier) }
                }
            },
            EventsEvent::Suppression { changed } => match changed {
                None => {
                    self.point = EventsPoint::Projection { crossing: None };
                    EventsAction::Project { index: self.at, crossing: None }
                },
                Some(routes_changed) => {
                    client.finish_suppressed_event(
                        &mut self.pass,
                        &self.events[self.at],
                        routes_changed,
                    );
                    assert(self.at < self.events.len());
                    self.at = self.at + 1;
                    self.turn()
                },
            },
            EventsEvent::Projected { projected, prior_routes_adopted } => {
                let crossing = match self.point {
                    EventsPoint::Projection { crossing } => crossing,
                    _ => None,
                };
                let mut projected = projected;
                projected.crossed = match crossing {
                    Some(frontier) => Some(CrossedFrontier { frontier, prior_routes_adopted }),
                    None => None,
                };
                let _ = client.finish_projected_event(
                    &mut self.pass,
                    &self.events[self.at],
                    projected,
                );
                assert(self.at < self.events.len());
                self.at = self.at + 1;
                self.turn()
            },
            EventsEvent::Cleared => self.end(client),
        }
    }
}

/// A step that fails leaves exactly the completed events behind: neither the report
/// nor an acknowledgement changes by it. Of a projection that failed only the mark of
/// a changed group stays, so that the next save writes the record.
pub proof fn law_failed_event_leaves_the_completed_prefix(
    before: EventsRun,
    after: EventsRun,
    client: AppClient,
    stepped: AppClient,
    event: EventsEvent,
    action: EventsAction,
)
    requires
        events_steps(before, after, client, stepped, event, action),
        event is Failed || event is ProjectionFailed,
    ensures
        stepped == (AppClient {
            pending_group_projection_updates: stepped.pending_group_projection_updates,
            ..client
        }),
        event is Failed ==> stepped == client,
        after.pass == before.pass,
        action matches EventsAction::Ended { result } && result is Err,
{
}

/// An acknowledgement is added only for an event that is complete: one that was
/// projected, or one that is suppressed.
pub proof fn law_only_complete_events_are_acknowledged(
    before: EventsRun,
    after: EventsRun,
    client: AppClient,
    stepped: AppClient,
    event: EventsEvent,
    action: EventsAction,
)
    requires
        events_steps(before, after, client, stepped, event, action),
        stepped.pending_application_event_acks.sequence()
            != client.pending_application_event_acks.sequence(),
    ensures
        event is Projected || (event matches EventsEvent::Suppression { changed }
            && changed is Some),
        after.at == before.at + 1,
{
}

/// How many steps a batch has left at most.
pub open spec fn batch_left(run: EventsRun) -> int {
    4 * (run.events@.len() - run.at) + (match run.point {
        EventsPoint::Crossing { .. } => 2int,
        EventsPoint::Suppression => 1int,
        EventsPoint::Projection { .. } => 0int,
        EventsPoint::Clearing => 1int,
        EventsPoint::Ended => 0int,
    })
}

/// A batch comes to an end: every step brings it closer, and it ends only when
/// every event is complete or a step failed.
pub proof fn law_batch_comes_to_an_end(
    before: EventsRun,
    after: EventsRun,
    client: AppClient,
    stepped: AppClient,
    event: EventsEvent,
    action: EventsAction,
)
    requires
        before.wf(),
        answers_batch(before.point, event),
        events_steps(before, after, client, stepped, event, action),
    ensures
        after.point is Ended || 0 <= batch_left(after) < batch_left(before),
        after.point is Ended ==> event is Failed || event is ProjectionFailed || before.at
            == before.events@.len(),
{
}

} // verus!
