//! Projecting one batch of effects, event by event.

use crate::client::app_client::{acknowledged, stages_event, AppClient};
use crate::client::events::{event_group, event_group_id, outbox_key, GroupEvent};
use crate::client::summary::{
    without_message, ProjectionUpdate, SlotsContent, SummaryContent, SyncSummary,
};
use crate::error::AppError;
use crate::order::push_unique;
use crate::text::hex_text;
use vstd::prelude::*;

verus! {

/// Where a batch comes from: a live delivery or send, whose summary the caller
/// owns, or a drain, whose every event is kept by the client at once.
#[derive(Clone, Copy, Debug, PartialEq, Eq, Structural)]
pub enum ObservationSeam {
    Live,
    Drained,
}

/// The state of one pass over a batch.
#[derive(Debug)]
pub struct EffectsPass {
    pub seam: ObservationSeam,
    pub routes_dirty: bool,
    /// What the completed events of a live batch report.
    pub summary: SyncSummary,
}

/// A frontier of a locally deleted group that an event crossed, and whether the
/// group's prior routes were adopted.
#[derive(Clone, Copy, Debug, PartialEq, Eq, Structural)]
pub struct CrossedFrontier {
    pub frontier: u64,
    pub prior_routes_adopted: bool,
}

/// What the projection of one event led to.
#[derive(Debug)]
pub struct ProjectedEvent {
    /// What the event itself reports.
    pub summary: SyncSummary,
    /// A gossip message among it that is not shown.
    pub gossip_message_id_hex: Option<String>,
    /// The group's stored record changed.
    pub group_record_changed: bool,
    /// The event forces the routes to be rebuilt.
    pub routes_dirty: bool,
    pub groups_before: usize,
    pub groups_after: usize,
    pub crossed: Option<CrossedFrontier>,
    /// System rows that a live event adds.
    pub system_rows: Vec<ProjectionUpdate>,
}

/// What one event adds to the report.
pub open spec fn event_report(seam: ObservationSeam, projected: ProjectedEvent) -> SummaryContent {
    let shown = match projected.gossip_message_id_hex {
        Some(id) => SummaryContent {
            messages: without_message(projected.summary@.messages, id@),
            ..projected.summary@
        },
        None => projected.summary@,
    };
    match seam {
        ObservationSeam::Live => SummaryContent {
            projection_updates: shown.projection_updates + projected.system_rows@,
            ..shown
        },
        ObservationSeam::Drained => shown,
    }
}

/// Whether an event changes the routes: by itself, or by a group more or less.
pub open spec fn changes_routes(projected: ProjectedEvent) -> bool {
    projected.routes_dirty || projected.groups_before != projected.groups_after
}

/// Whether an event may be acknowledged: always, except that one which brings a
/// deleted group back waits until the group's prior routes are adopted.
pub open spec fn may_acknowledge(event: GroupEvent, crossed: Option<CrossedFrontier>) -> bool {
    match crossed {
        Some(crossing) => event_group(event.deep_view()) is Some && crossing.prior_routes_adopted,
        None => true,
    }
}

/// The slots after an event of a pass was kept.
pub open spec fn slots_after_event(
    slots: SlotsContent,
    seam: ObservationSeam,
    report: SummaryContent,
    routes: bool,
) -> SlotsContent {
    let noted = SlotsContent {
        uncheckpointed_refresh: slots.uncheckpointed_refresh || routes,
        ..slots
    };
    match seam {
        ObservationSeam::Live => noted,
        ObservationSeam::Drained => noted.retain_uncheckpointed(report),
    }
}

/// How a client completes an event that is suppressed because its group was deleted
/// here.
pub open spec fn completes_suppressed(
    before: AppClient,
    after: AppClient,
    pass: EffectsPass,
    passed: EffectsPass,
    event: GroupEvent,
    routes_changed: bool,
) -> bool {
    &&& after == (AppClient {
        slots: after.slots,
        visibility: after.visibility,
        pending_application_event_acks: after.pending_application_event_acks,
        ..before
    })
    &&& after.pending_application_event_acks.sequence() == acknowledged(
        before.pending_application_event_acks.sequence(),
        outbox_key(event.deep_view()),
    )
    &&& stages_event(before.visibility, after.visibility, event)
    &&& after.slots@ == slots_after_event(
        before.slots@,
        pass.seam,
        SummaryContent::nothing(),
        routes_changed,
    )
    &&& passed.seam == pass.seam
    &&& passed.routes_dirty == (pass.routes_dirty || routes_changed)
    &&& passed.summary == pass.summary
}

/// How a client completes an event whose projection succeeded.
pub open spec fn completes_projected(
    before: AppClient,
    after: AppClient,
    pass: EffectsPass,
    passed: EffectsPass,
    event: GroupEvent,
    projected: ProjectedEvent,
) -> bool {
    let acknowledges = may_acknowledge(event, projected.crossed);
    &&& after == (AppClient {
        slots: after.slots,
        visibility: after.visibility,
        pending_application_event_acks: after.pending_application_event_acks,
        pending_local_group_deletion_frontier_clears: after.pending_local_group_deletion_frontier_clears,
        pending_group_projection_updates: after.pending_group_projection_updates,
        ..before
    })
    &&& after.pending_application_event_acks.sequence() == (if acknowledges {
        acknowledged(
            before.pending_application_event_acks.sequence(),
            outbox_key(event.deep_view()),
        )
    } else {
        before.pending_application_event_acks.sequence()
    })
    &&& acknowledges ==> stages_event(before.visibility, after.visibility, event)
    &&& !acknowledges ==> after.visibility == before.visibility
    &&& forall|group: Seq<char>| #[trigger]
        after.pending_local_group_deletion_frontier_clears.lookup(group) == (if acknowledges
            && projected.crossed is Some && group == hex_text(
            event_group(event.deep_view())->Some_0,
        ) && before.pending_local_group_deletion_frontier_clears.lookup(group) is None {
            Some(projected.crossed->Some_0.frontier)
        } else {
            before.pending_local_group_deletion_frontier_clears.lookup(group)
        })
    &&& after.pending_group_projection_updates.sequence() == (if projected.group_record_changed
        && event_group(event.deep_view()) is Some {
        push_unique(
            before.pending_group_projection_updates.sequence(),
            hex_text(event_group(event.deep_view())->Some_0),
        )
    } else {
        before.pending_group_projection_updates.sequence()
    })
    &&& after.slots@ == slots_after_event(
        before.slots@,
        pass.seam,
        event_report(pass.seam, projected),
        changes_routes(projected),
    )
    &&& passed.seam == pass.seam
    &&& passed.routes_dirty == (pass.routes_dirty || changes_routes(projected))
    &&& passed.summary@ == (match pass.seam {
        ObservationSeam::Live => pass.summary@.followed_by(event_report(pass.seam, projected)),
        ObservationSeam::Drained => pass.summary@,
    })
}

impl EffectsPass {
    pub fn begin(seam: ObservationSeam) -> (pass: Self)
        ensures
            pass.seam == seam,
            !pass.routes_dirty,
            pass.summary@ == SummaryContent::nothing(),
    {
        EffectsPass { seam, routes_dirty: false, summary: SyncSummary::default() }
    }
}

impl AppClient {
    /// Completes an event that is suppressed because its group was deleted here:
    /// it reports nothing, but is acknowledged.
    pub fn finish_suppressed_event(
        &mut self,
        pass: &mut EffectsPass,
        event: &GroupEvent,
        routes_changed: bool,
    )
        ensures
            completes_suppressed(
                *old(self),
                *final(self),
                *old(pass),
                *final(pass),
                *event,
                routes_changed,
            ),
    {
        pass.routes_dirty = pass.routes_dirty || routes_changed;
        self.prepare_pending_application_event_ack(event);
        self.slots.remember_uncheckpointed_runtime_group_subscription_refresh(routes_changed);
        match pass.seam {
            ObservationSeam::Live => {},
            ObservationSeam::Drained => {
                self.slots.retain_uncheckpointed_sync_summary(SyncSummary::default());
            },
        }
        self.stage_current_account_visibility_event(event);
    }

    /// Completes an event whose projection succeeded. Only now does its report
    /// join the completed prefix, and only now is it acknowledged. Returns
    /// whether it was.
    pub fn finish_projected_event(
        &mut self,
        pass: &mut EffectsPass,
        event: &GroupEvent,
        projected: ProjectedEvent,
    ) -> (acknowledges: bool)
        ensures
            acknowledges == may_acknowledge(*event, projected.crossed),
            completes_projected(
                *old(self),
                *final(self),
                *old(pass),
                *final(pass),
                *event,
                projected,
            ),
    {
        let mut summary = projected.summary;
        match &projected.gossip_message_id_hex {
            Some(id) => summary.drop_message(id),
            None => {},
        }
        if projected.group_record_changed {
            match event_group_id(event) {
                Some(id) => self.mark_group_projection_dirty(id),
                None => {},
            }
        }
        let routes = projected.routes_dirty || projected.groups_before != projected.groups_after;
        pass.routes_dirty = pass.routes_dirty || routes;
        let acknowledges = match projected.crossed {
            Some(crossing) => self.prepare_local_group_deletion_frontier_clear(
                event,
                crossing.frontier,
                crossing.prior_routes_adopted,
            ),
            None => true,
        };
        if acknowledges {
            self.prepare_pending_application_event_ack(event);
            self.stage_current_account_visibility_event(event);
        }
        self.slots.remember_uncheckpointed_runtime_group_subscription_refresh(routes);
        match pass.seam {
            ObservationSeam::Live => {
                let mut rows = projected.system_rows;
                summary.projection_updates.append(&mut rows);
                pass.summary.merge(summary);
            },
            ObservationSeam::Drained => {
                self.slots.retain_uncheckpointed_sync_summary(summary);
            },
        }
        acknowledges
    }

    /// Ends a drained pass: what it owes the routes is noted, and a publish
    /// failure that rode the same batch comes out last.
    pub fn finish_drained_pass(&mut self, pass: &EffectsPass, publish_error: Option<AppError>)
        -> (ended: Result<(), AppError>)
        ensures
            *final(self) == (AppClient { slots: final(self).slots, ..*old(self) }),
            final(self).slots@ == (SlotsContent {
                uncheckpointed_refresh: old(self).slots@.uncheckpointed_refresh
                    || pass.routes_dirty,
                ..old(self).slots@
            }),
            match publish_error {
                Some(error) => ended == Err::<(), AppError>(error),
                None => ended is Ok,
            },
    {
        self.slots.remember_uncheckpointed_runtime_group_subscription_refresh(pass.routes_dirty);
        match publish_error {
            Some(error) => Err(error),
            None => Ok(()),
        }
    }

    /// Keeps the completed prefix of a live pass that failed: exactly the events
    /// whose projection and acknowledgement are done.
    pub fn retain_failed_live_pass(&mut self, pass: EffectsPass)
        ensures
            *final(self) == (AppClient { slots: final(self).slots, ..*old(self) }),
            final(self).slots@ == old(self).slots@.retain_uncheckpointed(pass.summary@),
    {
        self.slots.retain_uncheckpointed_sync_summary(pass.summary);
    }

    /// Keeps what a send applied on the side, for the worker to broadcast.
    pub fn retain_send_applied_pass(&mut self, pass: EffectsPass, routes_changed: Option<bool>)
        ensures
            *final(self) == (AppClient { slots: final(self).slots, ..*old(self) }),
            final(self).slots@ == (SlotsContent {
                applied: old(self).slots@.applied.followed_by(pass.summary@),
                refresh: old(self).slots@.refresh || (routes_changed matches Some(changed) && (
                pass.routes_dirty || changed)),
                ..old(self).slots@
            }),
    {
        self.slots.applied.merge(pass.summary);
        match routes_changed {
            Some(changed) => {
                self.slots.refresh = self.slots.refresh || pass.routes_dirty || changed;
            },
            None => {},
        }
    }
}

/// An event that brings a deleted group back is acknowledged only with the
/// clearing of that group's frontier.
pub proof fn law_crossing_event_waits_for_its_routes(event: GroupEvent, frontier: u64)
    ensures
        !may_acknowledge(
            event,
            Some(CrossedFrontier { frontier, prior_routes_adopted: false }),
        ),
        may_acknowledge(event, None),
{
}

} // verus!
