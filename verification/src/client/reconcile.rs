//! Reconciling stored history with the relays, one route after another.

use crate::collections::{copy_bytes, Key};
use crate::ids::{lemma_bytes_order_laws, GroupId, MemberId, MessageId};
use crate::order::{bytes_less, bytes_lt, sort_stable, stable_sorted, Ordered};
use vstd::prelude::*;

verus! {

/// How many routes one pass reconciles at most.
pub const TRANSPORT_RECONCILIATION_MAX_ROUTES_PER_PASS: usize = 4;

/// A route on which deliveries arrive: the account's inbox, or a group by its
/// thirty-two byte transport identifier. The inbox comes first.
#[derive(Debug, PartialEq, Eq)]
pub enum TransportReconciliationRoute {
    Inbox,
    Group(Vec<u8>),
}

/// The content of a [`TransportReconciliationRoute`].
pub enum RouteContent {
    Inbox,
    Group(Seq<u8>),
}

impl DeepView for TransportReconciliationRoute {
    type V = RouteContent;

    open spec fn deep_view(&self) -> RouteContent {
        match self {
            TransportReconciliationRoute::Inbox => RouteContent::Inbox,
            TransportReconciliationRoute::Group(id) => RouteContent::Group(id@),
        }
    }
}

/// The inbox precedes every group; groups go by their identifiers.
pub open spec fn route_lt(left: RouteContent, right: RouteContent) -> bool {
    match (left, right) {
        (RouteContent::Inbox, RouteContent::Group(_)) => true,
        (RouteContent::Group(a), RouteContent::Group(b)) => bytes_lt(a, b),
        _ => false,
    }
}

impl Ordered for TransportReconciliationRoute {
    open spec fn before(&self, other: &Self) -> bool {
        route_lt(self.deep_view(), other.deep_view())
    }

    proof fn order_laws(first: &Self, second: &Self, third: &Self) {
        match (first.deep_view(), second.deep_view(), third.deep_view()) {
            (RouteContent::Group(a), RouteContent::Group(b), RouteContent::Group(c)) => {
                lemma_bytes_order_laws(a, b, c);
            },
            (RouteContent::Group(a), RouteContent::Group(b), _) => {
                lemma_bytes_order_laws(a, b, b);
            },
            _ => {},
        }
    }

    fn precedes(&self, other: &Self) -> (earlier: bool) {
        match (self, other) {
            (TransportReconciliationRoute::Inbox, TransportReconciliationRoute::Group(_)) => true,
            (
                TransportReconciliationRoute::Group(a),
                TransportReconciliationRoute::Group(b),
            ) => bytes_less(a.as_slice(), b.as_slice()),
            _ => false,
        }
    }
}

/// The position of the first route after the cursor; the start, if there is none.
pub open spec fn start_after(routes: Seq<TransportReconciliationRoute>, cursor: RouteContent) -> int
    decreases routes.len(),
{
    first_after(routes, cursor, 0)
}

/// The first position from `from` on whose route comes after the cursor, else zero.
pub open spec fn first_after(
    routes: Seq<TransportReconciliationRoute>,
    cursor: RouteContent,
    from: int,
) -> int
    decreases routes.len() - from,
{
    if from < 0 || from >= routes.len() {
        0
    } else if route_lt(cursor, routes[from].deep_view()) {
        from
    } else {
        first_after(routes, cursor, from + 1)
    }
}

/// Where a pass starts: after the route that was attempted last.
pub fn reconciliation_start_after_cursor(
    routes: &Vec<TransportReconciliationRoute>,
    cursor: Option<&TransportReconciliationRoute>,
) -> (start: usize)
    ensures
        start == (match cursor {
            Some(route) => start_after(routes@, route.deep_view()),
            None => 0,
        }),
        routes@.len() > 0 ==> start < routes@.len(),
{
    match cursor {
        None => 0,
        Some(last) => {
            let mut i: usize = 0;
            while i < routes.len()
                invariant
                    i <= routes@.len(),
                    cursor == Some(last),
                    start_after(routes@, last.deep_view()) == first_after(
                        routes@,
                        last.deep_view(),
                        i as int,
                    ),
                decreases routes.len() - i,
            {
                if last.precedes(&routes[i]) {
                    return i;
                }
                i += 1;
            }
            0
        },
    }
}

/// Routes in strictly ascending order.
pub open spec fn ascending_routes(routes: Seq<TransportReconciliationRoute>) -> bool {
    forall|i: int, j: int|
        0 <= i < j < routes.len() ==> route_lt(
            (#[trigger] routes[i]).deep_view(),
            (#[trigger] routes[j]).deep_view(),
        )
}

proof fn lemma_first_after_skips(
    routes: Seq<TransportReconciliationRoute>,
    cursor: RouteContent,
    from: int,
    to: int,
)
    requires
        0 <= from <= to <= routes.len(),
        forall|i: int|
            from <= i < to ==> !route_lt(cursor, (#[trigger] routes[i]).deep_view()),
    ensures
        first_after(routes, cursor, from) == first_after(routes, cursor, to),
    decreases to - from,
{
    if from < to {
        lemma_first_after_skips(routes, cursor, from + 1, to);
    }
}

/// The pass after one that ended at a route starts at the next route, and at the
/// first again after the last: no route can hold the others back.
pub proof fn law_rotation_moves_past_every_route(
    routes: Seq<TransportReconciliationRoute>,
    last: int,
)
    requires
        ascending_routes(routes),
        0 <= last < routes.len(),
    ensures
        start_after(routes, routes[last].deep_view()) == (if last + 1 < routes.len() {
            last + 1
        } else {
            0
        }),
{
    let cursor = routes[last].deep_view();
    assert forall|i: int| 0 <= i < last + 1 implies !route_lt(
        cursor,
        (#[trigger] routes[i]).deep_view(),
    ) by {
        if i < last {
            assert(route_lt(routes[i].deep_view(), routes[last].deep_view()));
            TransportReconciliationRoute::order_laws(&routes[i], &routes[last], &routes[last]);
        } else {
            TransportReconciliationRoute::order_laws(&routes[last], &routes[last], &routes[last]);
        }
    }
    lemma_first_after_skips(routes, cursor, 0, last + 1);
    if last + 1 < routes.len() {
        assert(route_lt(routes[last].deep_view(), routes[last + 1].deep_view()));
    }
}

/// What one pass does on a route. A group is held by its transport identifier
/// and the number under which the caller keeps its subscription.
#[derive(Debug, PartialEq, Eq)]
pub enum TransportReconciliationWork {
    Inbox { endpoints: Vec<String> },
    Group { transport_group_id: Vec<u8>, subscription: u64 },
}

impl TransportReconciliationWork {
    /// The route of the work; none for a group whose identifier is not
    /// thirty-two bytes long.
    pub open spec fn spec_route(&self) -> Option<RouteContent> {
        match self {
            TransportReconciliationWork::Inbox { .. } => Some(RouteContent::Inbox),
            TransportReconciliationWork::Group { transport_group_id, .. } => if transport_group_id@.len()
                == 32 {
                Some(RouteContent::Group(transport_group_id@))
            } else {
                None
            },
        }
    }

    pub fn route(&self) -> (route: Option<TransportReconciliationRoute>)
        ensures
            route.deep_view() == self.spec_route(),
    {
        match self {
            TransportReconciliationWork::Inbox { .. } => Some(TransportReconciliationRoute::Inbox),
            TransportReconciliationWork::Group { transport_group_id, .. } => {
                if transport_group_id.len() == 32 {
                    Some(TransportReconciliationRoute::Group(copy_bytes(transport_group_id)))
                } else {
                    None
                }
            },
        }
    }
}

/// No route precedes a route.
pub open spec fn optional_route_lt(left: Option<RouteContent>, right: Option<RouteContent>) -> bool {
    match (left, right) {
        (None, Some(_)) => true,
        (Some(a), Some(b)) => route_lt(a, b),
        _ => false,
    }
}

impl Ordered for TransportReconciliationWork {
    open spec fn before(&self, other: &Self) -> bool {
        optional_route_lt(self.spec_route(), other.spec_route())
    }

    proof fn order_laws(first: &Self, second: &Self, third: &Self) {
        match (first.spec_route(), second.spec_route(), third.spec_route()) {
            (
                Some(RouteContent::Group(a)),
                Some(RouteContent::Group(b)),
                Some(RouteContent::Group(c)),
            ) => {
                lemma_bytes_order_laws(a, b, c);
            },
            (Some(RouteContent::Group(a)), Some(RouteContent::Group(b)), _) => {
                lemma_bytes_order_laws(a, b, b);
            },
            _ => {},
        }
    }

    fn precedes(&self, other: &Self) -> (earlier: bool) {
        match (self.route(), other.route()) {
            (None, Some(_)) => true,
            (Some(a), Some(b)) => a.precedes(&b),
            _ => false,
        }
    }
}

/// A group route as the routing table has it.
#[derive(Debug, PartialEq, Eq)]
pub struct GroupRoute {
    pub transport_group_id: Vec<u8>,
    pub subscription: u64,
}

/// The work that a routing table offers: the inbox if it has endpoints, then
/// every group with a well-formed identifier.
pub open spec fn offered_work(
    inbox_endpoints: Vec<String>,
    groups: Seq<GroupRoute>,
) -> Seq<TransportReconciliationWork>
    decreases groups.len(),
{
    if groups.len() == 0 {
        if inbox_endpoints@.len() == 0 {
            Seq::empty()
        } else {
            seq![TransportReconciliationWork::Inbox { endpoints: inbox_endpoints }]
        }
    } else {
        let rest = offered_work(inbox_endpoints, groups.drop_last());
        if groups.last().transport_group_id@.len() == 32 {
            rest.push(
                TransportReconciliationWork::Group {
                    transport_group_id: groups.last().transport_group_id,
                    subscription: groups.last().subscription,
                },
            )
        } else {
            rest
        }
    }
}

/// A list that begins at a position and goes round.
pub open spec fn rotated<T>(items: Seq<T>, start: int) -> Seq<T> {
    items.skip(start) + items.take(start)
}

/// At most the first few elements of a list.
pub open spec fn at_most<T>(items: Seq<T>, count: int) -> Seq<T> {
    if items.len() <= count {
        items
    } else {
        items.take(count)
    }
}

fn collect_routes(work: &Vec<TransportReconciliationWork>) -> (routes: Vec<
    TransportReconciliationRoute,
>)
    requires
        forall|i: int| 0 <= i < work@.len() ==> (#[trigger] work@[i]).spec_route() is Some,
    ensures
        routes@.len() == work@.len(),
        forall|i: int|
            0 <= i < work@.len() ==> Some((#[trigger] routes@[i]).deep_view())
                == work@[i].spec_route(),
{
    let mut routes: Vec<TransportReconciliationRoute> = Vec::new();
    let mut i: usize = 0;
    while i < work.len()
        invariant
            i <= work@.len(),
            forall|j: int| 0 <= j < work@.len() ==> (#[trigger] work@[j]).spec_route() is Some,
            routes@.len() == i,
            forall|j: int|
                0 <= j < i ==> Some((#[trigger] routes@[j]).deep_view()) == work@[j].spec_route(),
        decreases work.len() - i,
    {
        assert(work@[i as int].spec_route() is Some);
        match work[i].route() {
            Some(route) => {
                routes.push(route);
            },
            None => {},
        }
        i += 1;
    }
    routes
}

/// The position of the first work whose route comes after the cursor, else zero.
pub open spec fn work_start(
    work: Seq<TransportReconciliationWork>,
    cursor: Option<RouteContent>,
    from: int,
) -> int
    decreases work.len() - from,
{
    match cursor {
        None => 0,
        Some(route) => if from < 0 || from >= work.len() {
            0
        } else if optional_route_lt(Some(route), work[from].spec_route()) {
            from
        } else {
            work_start(work, cursor, from + 1)
        },
    }
}

proof fn lemma_work_start(
    work: Seq<TransportReconciliationWork>,
    routes: Seq<TransportReconciliationRoute>,
    cursor: RouteContent,
    from: int,
)
    requires
        routes.len() == work.len(),
        forall|i: int|
            0 <= i < work.len() ==> Some((#[trigger] routes[i]).deep_view())
                == work[i].spec_route(),
        0 <= from,
    ensures
        work_start(work, Some(cursor), from) == first_after(routes, cursor, from),
    decreases work.len() - from,
{
    if from < work.len() {
        assert(Some(routes[from].deep_view()) == work[from].spec_route());
        lemma_work_start(work, routes, cursor, from + 1);
    }
}

/// The work of one pass: everything offered, sorted by route, from the route
/// after the cursor on, and at most a few.
pub open spec fn pass_work(
    inbox_endpoints: Vec<String>,
    groups: Seq<GroupRoute>,
    cursor: Option<RouteContent>,
) -> Seq<TransportReconciliationWork> {
    let sorted = stable_sorted(offered_work(inbox_endpoints, groups));
    at_most(
        rotated(sorted, work_start(sorted, cursor, 0)),
        TRANSPORT_RECONCILIATION_MAX_ROUTES_PER_PASS as int,
    )
}

proof fn lemma_offered_has_routes(inbox_endpoints: Vec<String>, groups: Seq<GroupRoute>)
    ensures
        forall|w: TransportReconciliationWork| #[trigger]
            offered_work(inbox_endpoints, groups).contains(w) ==> w.spec_route() is Some,
    decreases groups.len(),
{
    if groups.len() > 0 {
        lemma_offered_has_routes(inbox_endpoints, groups.drop_last());
        let rest = offered_work(inbox_endpoints, groups.drop_last());
        assert forall|w: TransportReconciliationWork| #[trigger]
            offered_work(inbox_endpoints, groups).contains(w) implies w.spec_route() is Some by {
            if groups.last().transport_group_id@.len() == 32 {
                crate::order::lemma_push_contains(
                    rest,
                    TransportReconciliationWork::Group {
                        transport_group_id: groups.last().transport_group_id,
                        subscription: groups.last().subscription,
                    },
                    w,
                );
            }
            if rest.contains(w) {
            }
        }
    }
}

/// Plans one reconciliation pass.
pub fn plan_transport_reconciliation(
    inbox_endpoints: Vec<String>,
    groups: Vec<GroupRoute>,
    cursor: Option<&TransportReconciliationRoute>,
) -> (work: Vec<TransportReconciliationWork>)
    ensures
        work@ == pass_work(
            inbox_endpoints,
            groups@,
            match cursor {
                Some(route) => Some(route.deep_view()),
                None => None,
            },
        ),
        work@.len() <= TRANSPORT_RECONCILIATION_MAX_ROUTES_PER_PASS,
{
    let ghost all = groups@;
    let mut source = groups;
    let ghost endpoints = inbox_endpoints;
    let mut work: Vec<TransportReconciliationWork> = Vec::new();
    if inbox_endpoints.len() > 0 {
        work.push(TransportReconciliationWork::Inbox { endpoints: inbox_endpoints });
    }
    assert(all.take(0) =~= Seq::<GroupRoute>::empty());
    assert(all.skip(0) =~= all);
    assert(work@ =~= offered_work(endpoints, all.take(0)));
    while source.len() > 0
        invariant
            source@.len() <= all.len(),
            source@ == all.skip(all.len() - source@.len()),
            work@ == offered_work(endpoints, all.take(all.len() - source@.len())),
        decreases source.len(),
    {
        let ghost done = all.len() - source@.len();
        let group = source.remove(0);
        assert(group == all[done]);
        assert(source@ =~= all.skip(done + 1));
        assert(all.take(done + 1).drop_last() =~= all.take(done));
        if group.transport_group_id.len() == 32 {
            work.push(
                TransportReconciliationWork::Group {
                    transport_group_id: group.transport_group_id,
                    subscription: group.subscription,
                },
            );
        }
    }
    assert(all.take(all.len() as int) =~= all);
    let mut work = sort_stable(work);
    let ghost sorted = work@;
    proof {
        lemma_offered_has_routes(endpoints, all);
        assert forall|i: int| 0 <= i < sorted.len() implies (#[trigger] sorted[i]).spec_route()
            is Some by {
            assert(sorted.contains(sorted[i]));
        }
    }
    let routes = collect_routes(&work);
    let start: usize = reconciliation_start_after_cursor(&routes, cursor);
    proof {
        if cursor is Some {
            lemma_work_start(sorted, routes@, cursor->Some_0.deep_view(), 0);
        }
        assert(start <= sorted.len());
    }
    let mut tail = work.split_off(start);
    tail.append(&mut work);
    assert(tail@ =~= rotated(sorted, start as int));
    if tail.len() > TRANSPORT_RECONCILIATION_MAX_ROUTES_PER_PASS {
        tail.truncate(TRANSPORT_RECONCILIATION_MAX_ROUTES_PER_PASS);
    }
    tail
}

/// How a delivery is addressed.
#[derive(Debug, PartialEq, Eq)]
pub enum TransportEnvelope {
    Welcome { recipient: MemberId },
    GroupMessage { transport_group_id: Vec<u8> },
    Other,
}

/// A delivery, as far as reconciliation reads it.
#[derive(Debug, PartialEq, Eq)]
pub struct TransportDelivery {
    pub message_id: MessageId,
    pub timestamp: u64,
    pub group_id_hint: Option<GroupId>,
    pub envelope: TransportEnvelope,
}

/// An event that the local set holds.
#[derive(Debug, PartialEq, Eq)]
pub struct TransportReconciliationItem {
    pub event_id: Vec<u8>,
    pub created_at: u64,
}

/// The route of a delivery: a welcome for the account, or a group message whose
/// route was validated.
pub open spec fn delivery_route(account_id: Seq<u8>, delivery: TransportDelivery) -> Option<
    RouteContent,
> {
    match delivery.envelope {
        TransportEnvelope::Welcome { recipient } => if recipient.deep_view() == account_id {
            Some(RouteContent::Inbox)
        } else {
            None
        },
        TransportEnvelope::GroupMessage { transport_group_id } => if delivery.group_id_hint is Some
            && transport_group_id@.len() == 32 {
            Some(RouteContent::Group(transport_group_id@))
        } else {
            None
        },
        TransportEnvelope::Other => None,
    }
}

/// The entry of the local set for a delivery, if it has one.
pub fn transport_reconciliation_record(
    account_id: &MemberId,
    delivery: &TransportDelivery,
) -> (record: Option<(TransportReconciliationRoute, TransportReconciliationItem)>)
    ensures
        match record {
            Some((route, item)) => {
                &&& delivery_route(account_id.deep_view(), *delivery) == Some(route.deep_view())
                &&& delivery.message_id.deep_view().len() == 32
                &&& item.event_id@ == delivery.message_id.deep_view()
                &&& item.created_at == delivery.timestamp
            },
            None => delivery_route(account_id.deep_view(), *delivery) is None
                || delivery.message_id.deep_view().len() != 32,
        },
{
    let route = match &delivery.envelope {
        TransportEnvelope::Welcome { recipient } => {
            if recipient.same(account_id) {
                TransportReconciliationRoute::Inbox
            } else {
                return None;
            }
        },
        TransportEnvelope::GroupMessage { transport_group_id } => {
            if delivery.group_id_hint.is_some() && transport_group_id.len() == 32 {
                TransportReconciliationRoute::Group(copy_bytes(transport_group_id))
            } else {
                return None;
            }
        },
        TransportEnvelope::Other => {
            return None;
        },
    };
    if delivery.message_id.bytes.len() != 32 {
        return None;
    }
    Some(
        (
            route,
            TransportReconciliationItem {
                event_id: copy_bytes(&delivery.message_id.bytes),
                created_at: delivery.timestamp,
            },
        ),
    )
}

/// What one route's reconciliation brought.
#[derive(Clone, Copy, Debug, PartialEq, Eq, Structural)]
pub struct RouteReconciliation {
    pub relays_succeeded: usize,
    pub relays_failed: usize,
    pub remote_items: usize,
    pub received_items: usize,
}

/// How an attempted route ended.
#[derive(Clone, Copy, Debug, PartialEq, Eq, Structural)]
pub enum RouteAttempt {
    Reconciled(RouteReconciliation),
    Unsupported,
    Failed,
}

/// The totals of one pass.
#[derive(Clone, Copy, Debug, PartialEq, Eq, Structural)]
pub struct ReconciliationTally {
    pub attempted_routes: usize,
    pub routes_failed: usize,
    pub relays_succeeded: usize,
    pub relays_failed: usize,
    pub remote_items: usize,
    pub received_items: usize,
}

pub open spec fn saturated_sum(left: usize, right: usize) -> usize {
    if left + right > usize::MAX {
        usize::MAX
    } else {
        (left + right) as usize
    }
}

/// Whether a route is attempted: its local set must not begin after the time up
/// to which the pass reconciles.
pub fn attempts_route(inventory_since: u64, reconcile_until: u64) -> (attempts: bool)
    ensures
        attempts == (inventory_since <= reconcile_until),
{
    inventory_since <= reconcile_until
}

/// Totals with one attempted route more.
pub open spec fn tally_with(tally: ReconciliationTally, attempt: RouteAttempt) -> ReconciliationTally {
    match attempt {
        RouteAttempt::Reconciled(route) => ReconciliationTally {
            attempted_routes: saturated_sum(tally.attempted_routes, 1),
            routes_failed: tally.routes_failed,
            relays_succeeded: saturated_sum(tally.relays_succeeded, route.relays_succeeded),
            relays_failed: saturated_sum(tally.relays_failed, route.relays_failed),
            remote_items: saturated_sum(tally.remote_items, route.remote_items),
            received_items: saturated_sum(tally.received_items, route.received_items),
        },
        RouteAttempt::Unsupported => ReconciliationTally {
            attempted_routes: saturated_sum(tally.attempted_routes, 1),
            ..tally
        },
        RouteAttempt::Failed => ReconciliationTally {
            attempted_routes: saturated_sum(tally.attempted_routes, 1),
            routes_failed: saturated_sum(tally.routes_failed, 1),
            ..tally
        },
    }
}

/// Totals of a pass that attempted nothing.
pub open spec fn nothing_attempted() -> ReconciliationTally {
    ReconciliationTally {
        attempted_routes: 0,
        routes_failed: 0,
        relays_succeeded: 0,
        relays_failed: 0,
        remote_items: 0,
        received_items: 0,
    }
}

impl ReconciliationTally {
    pub fn new() -> (tally: Self)
        ensures
            tally == nothing_attempted(),
    {
        ReconciliationTally {
            attempted_routes: 0,
            routes_failed: 0,
            relays_succeeded: 0,
            relays_failed: 0,
            remote_items: 0,
            received_items: 0,
        }
    }

    /// Counts one attempted route.
    pub fn record(&mut self, attempt: RouteAttempt)
        ensures
            *final(self) == tally_with(*old(self), attempt),
    {
        self.attempted_routes = self.attempted_routes.saturating_add(1);
        match attempt {
            RouteAttempt::Reconciled(route) => {
                self.relays_succeeded = self.relays_succeeded.saturating_add(
                    route.relays_succeeded,
                );
                self.relays_failed = self.relays_failed.saturating_add(route.relays_failed);
                self.remote_items = self.remote_items.saturating_add(route.remote_items);
                self.received_items = self.received_items.saturating_add(route.received_items);
            },
            RouteAttempt::Unsupported => {},
            RouteAttempt::Failed => {
                self.routes_failed = self.routes_failed.saturating_add(1);
            },
        }
    }
}

} // verus!
