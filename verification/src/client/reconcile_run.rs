//! One pass of set reconciliation, route by route.

use crate::client::reconcile::{
    attempts_route, nothing_attempted, pass_work, plan_transport_reconciliation, tally_with,
    GroupRoute, ReconciliationTally, RouteAttempt, TransportReconciliationRoute,
    TransportReconciliationWork, TRANSPORT_RECONCILIATION_MAX_ROUTES_PER_PASS,
};
use crate::error::AppError;
use vstd::prelude::*;

verus! {

/// What a pass waits for.
#[derive(Clone, Copy, Debug, PartialEq, Eq, Structural)]
pub enum ReconcilePoint {
    /// The stored cursor moves to the current route.
    Cursor,
    /// The local set of the current route is read.
    Inventory,
    /// The relays of the current route are asked.
    Attempt,
    Ended,
}

/// One pass.
pub struct ReconcileRun {
    pub work: Vec<TransportReconciliationWork>,
    pub at: usize,
    pub until: u64,
    pub tally: ReconciliationTally,
    pub point: ReconcilePoint,
}

/// What the step that a pass waits for brought.
pub enum ReconcileEvent {
    CursorMoved,
    /// The local set, by when it begins.
    Inventory { since: u64 },
    Attempted { attempt: RouteAttempt },
    Failed { error: AppError },
}

/// What a pass asks for.
pub enum ReconcileAction {
    MoveCursor { route: TransportReconciliationRoute },
    ReadInventory { route: TransportReconciliationRoute },
    /// Reconcile the work at an index with the relays.
    Attempt { index: usize, since: u64 },
    Ended { result: Result<ReconciliationTally, AppError> },
}

/// The first position from one on whose work has a route, or the number of them.
pub open spec fn next_route(work: Seq<TransportReconciliationWork>, from: int) -> int
    decreases work.len() - from,
{
    if from < 0 || from >= work.len() || work[from].spec_route() is Some {
        from
    } else {
        next_route(work, from + 1)
    }
}

/// How a pass turns to the next route from a position on, or ends. The cursor moves
/// before anything else, so that a route that stalls is passed by next time.
pub open spec fn turns_to(run: ReconcileRun, from: int, action: ReconcileAction) -> bool {
    let next = next_route(run.work@, from);
    &&& run.at == next
    &&& if next < run.work@.len() {
        &&& run.point is Cursor
        &&& action matches ReconcileAction::MoveCursor { route } && Some(route.deep_view())
            == run.work@[next].spec_route()
    } else {
        &&& run.point is Ended
        &&& action == (ReconcileAction::Ended {
            result: Ok::<ReconciliationTally, AppError>(run.tally),
        })
    }
}

/// Whether an event answers what a pass waits for.
pub open spec fn answers_pass(point: ReconcilePoint, event: ReconcileEvent) -> bool {
    match event {
        ReconcileEvent::CursorMoved => point is Cursor,
        ReconcileEvent::Inventory { .. } => point is Inventory,
        ReconcileEvent::Attempted { .. } => point is Attempt,
        ReconcileEvent::Failed { .. } => !(point is Ended),
    }
}

/// How a pass steps. Storage that fails ends it; a route that fails does not.
pub open spec fn reconcile_steps(
    before: ReconcileRun,
    after: ReconcileRun,
    event: ReconcileEvent,
    action: ReconcileAction,
) -> bool {
    &&& after.work == before.work
    &&& after.until == before.until
    &&& match event {
        ReconcileEvent::Failed { error } => {
            &&& after.at == before.at
            &&& after.tally == before.tally
            &&& after.point is Ended
            &&& action == (ReconcileAction::Ended {
                result: Err::<ReconciliationTally, AppError>(error),
            })
        },
        ReconcileEvent::CursorMoved => {
            &&& after.at == before.at
            &&& after.tally == before.tally
            &&& after.point is Inventory
            &&& action matches ReconcileAction::ReadInventory { route } && Some(route.deep_view())
                == before.work@[before.at as int].spec_route()
        },
        ReconcileEvent::Inventory { since } => {
            &&& after.tally == before.tally
            &&& if since > before.until {
                turns_to(after, before.at + 1, action)
            } else {
                &&& after.at == before.at
                &&& after.point is Attempt
                &&& action == (ReconcileAction::Attempt { index: before.at, since })
            }
        },
        ReconcileEvent::Attempted { attempt } => {
            &&& after.tally == tally_with(before.tally, attempt)
            &&& turns_to(after, before.at + 1, action)
        },
    }
}

proof fn lemma_next_route(work: Seq<TransportReconciliationWork>, from: int)
    requires
        0 <= from <= work.len(),
    ensures
        from <= next_route(work, from) <= work.len(),
        next_route(work, from) < work.len() ==> work[next_route(work, from)].spec_route() is Some,
    decreases work.len() - from,
{
    if from < work.len() && work[from].spec_route() is None {
        lemma_next_route(work, from + 1);
    }
}

impl ReconcileRun {
    /// Whether the pass is at work with a route while it waits for something.
    pub open spec fn wf(&self) -> bool {
        !(self.point is Ended) ==> self.at < self.work@.len()
            && self.work@[self.at as int].spec_route() is Some
    }

    fn turn(&mut self, from: usize) -> (action: ReconcileAction)
        requires
            from <= old(self).work@.len(),
        ensures
            *final(self) == (ReconcileRun {
                at: final(self).at,
                point: final(self).point,
                ..*old(self)
            }),
            turns_to(*final(self), from as int, action),
            final(self).wf(),
    {
        let mut next: usize = from;
        proof {
            lemma_next_route(self.work@, from as int);
        }
        while next < self.work.len()
            invariant
                from <= next <= self.work@.len(),
                *self == *old(self),
                next_route(self.work@, from as int) == next_route(self.work@, next as int),
            decreases self.work.len() - next,
        {
            match self.work[next].route() {
                Some(route) => {
                    self.at = next;
                    self.point = ReconcilePoint::Cursor;
                    return ReconcileAction::MoveCursor { route };
                },
                None => {
                    next += 1;
                },
            }
        }
        self.at = next;
        self.point = ReconcilePoint::Ended;
        ReconcileAction::Ended { result: Ok(self.tally) }
    }

    /// Plans a pass and begins it.
    pub fn begin(
        inbox_endpoints: Vec<String>,
        groups: Vec<GroupRoute>,
        cursor: Option<&TransportReconciliationRoute>,
        until: u64,
    ) -> (begun: (Self, ReconcileAction))
        ensures
            begun.0.work@ == pass_work(
                inbox_endpoints,
                groups@,
                match cursor {
                    Some(route) => Some(route.deep_view()),
                    None => None,
                },
            ),
            begun.0.work@.len() <= TRANSPORT_RECONCILIATION_MAX_ROUTES_PER_PASS,
            begun.0.until == until,
            begun.0.tally == nothing_attempted(),
            turns_to(begun.0, 0, begun.1),
            begun.0.wf(),
    {
        let mut run = ReconcileRun {
            work: plan_transport_reconciliation(inbox_endpoints, groups, cursor),
            at: 0,
            until,
            tally: ReconciliationTally::new(),
            point: ReconcilePoint::Ended,
        };
        let action = run.turn(0);
        (run, action)
    }

    /// Makes a step.
    pub fn step(&mut self, event: ReconcileEvent) -> (action: ReconcileAction)
        requires
            old(self).wf(),
            answers_pass(old(self).point, event),
        ensures
            reconcile_steps(*old(self), *final(self), event, action),
            final(self).wf(),
    {
        match event {
            ReconcileEvent::Failed { error } => {
                self.point = ReconcilePoint::Ended;
                ReconcileAction::Ended { result: Err(error) }
            },
            ReconcileEvent::CursorMoved => {
                self.point = ReconcilePoint::Inventory;
                match self.work[self.at].route() {
                    Some(route) => ReconcileAction::ReadInventory { route },
                    None => ReconcileAction::ReadInventory {
                        route: TransportReconciliationRoute::Inbox,
                    },
                }
            },
            ReconcileEvent::Inventory { since } => {
                if attempts_route(since, self.until) {
                    self.point = ReconcilePoint::Attempt;
                    ReconcileAction::Attempt { index: self.at, since }
                } else {
                    assert(self.at < self.work.len());
                    let from: usize = self.at + 1;
                    self.turn(from)
                }
            },
            ReconcileEvent::Attempted { attempt } => {
                self.tally.record(attempt);
                assert(self.at < self.work.len());
                let from: usize = self.at + 1;
                self.turn(from)
            },
        }
    }
}

/// The stored cursor stands at a route before its relays are asked, and no route is
/// asked whose local set begins after the time up to which the pass reconciles.
pub proof fn law_relays_are_asked_after_the_cursor_moved(
    before: ReconcileRun,
    after: ReconcileRun,
    event: ReconcileEvent,
    action: ReconcileAction,
    index: usize,
    since: u64,
)
    requires
        answers_pass(before.point, event),
        reconcile_steps(before, after, event, action),
        action == (ReconcileAction::Attempt { index, since }),
    ensures
        before.point is Inventory,
        index == before.at,
        since <= before.until,
{
}

/// A pass comes to an end: every step brings it closer.
pub proof fn law_reconciliation_comes_to_an_end(
    before: ReconcileRun,
    after: ReconcileRun,
    event: ReconcileEvent,
    action: ReconcileAction,
)
    requires
        before.wf(),
        answers_pass(before.point, event),
        reconcile_steps(before, after, event, action),
    ensures
        after.point is Ended || 0 <= routes_left(after) < routes_left(before),
{
    if before.at < before.work@.len() {
        lemma_next_route(before.work@, before.at + 1);
    }
}

/// How many steps a pass has left at most.
pub open spec fn routes_left(run: ReconcileRun) -> int {
    3 * (run.work@.len() - run.at) + (match run.point {
        ReconcilePoint::Cursor => 2int,
        ReconcilePoint::Inventory => 1int,
        _ => 0int,
    })
}

} // verus!
