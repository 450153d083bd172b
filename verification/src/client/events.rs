//! Engine events that a client observes, and what each means for the account.

use crate::collections::{copy_bytes, same_bytes, Key};
use crate::ids::{GroupId, MemberId, MessageId};
use crate::text::{eq_ignore_ascii_case, hex_encode, hex_text, same_ignoring_ascii_case};
use vstd::prelude::*;

verus! {

/// A change of a group's state.
#[derive(Debug, PartialEq, Eq)]
pub enum GroupStateChange {
    GroupDisbanded,
    MemberAdded { member: MemberId },
    MemberRemoved { member: MemberId },
    MemberLeft { member: MemberId },
    AdminAdded { member: MemberId },
    /// A change without consequence here, by the engine's number for it.
    Other { code: u64 },
}

/// An event that the engine reports.
#[allow(inconsistent_fields)]
#[derive(Debug, PartialEq, Eq)]
pub enum GroupEvent {
    GroupCreated { group_id: GroupId },
    GroupJoined { group_id: GroupId, via_welcome: MessageId },
    MessageReceived {
        group_id: GroupId,
        message_id: MessageId,
        sender: MemberId,
        epoch: u64,
        payload: Vec<u8>,
        /// How long the message is kept, where the group limits that.
        retention: Option<u64>,
    },
    GroupStateChanged { group_id: GroupId, change: GroupStateChange },
    EpochChanged { group_id: GroupId, from: u64, to: u64 },
    TransportObjectResourceRefused { group_id: GroupId },
    /// An event without consequence here, by the engine's number for it.
    Other { group_id: Option<GroupId>, code: u64 },
}

/// The content of a [`GroupStateChange`].
pub enum ChangeContent {
    GroupDisbanded,
    MemberAdded(Seq<u8>),
    MemberRemoved(Seq<u8>),
    MemberLeft(Seq<u8>),
    AdminAdded(Seq<u8>),
    Other(u64),
}

/// The content of a [`GroupEvent`].
pub enum EventContent {
    GroupCreated(Seq<u8>),
    GroupJoined(Seq<u8>, Seq<u8>),
    MessageReceived(Seq<u8>, Seq<u8>, Seq<u8>, u64, Seq<u8>, Option<u64>),
    GroupStateChanged(Seq<u8>, ChangeContent),
    EpochChanged(Seq<u8>, u64, u64),
    ResourceRefused(Seq<u8>),
    Other(Option<Seq<u8>>, u64),
}

impl DeepView for GroupStateChange {
    type V = ChangeContent;

    open spec fn deep_view(&self) -> ChangeContent {
        match self {
            GroupStateChange::GroupDisbanded => ChangeContent::GroupDisbanded,
            GroupStateChange::MemberAdded { member } => ChangeContent::MemberAdded(
                member.deep_view(),
            ),
            GroupStateChange::MemberRemoved { member } => ChangeContent::MemberRemoved(
                member.deep_view(),
            ),
            GroupStateChange::MemberLeft { member } => ChangeContent::MemberLeft(
                member.deep_view(),
            ),
            GroupStateChange::AdminAdded { member } => ChangeContent::AdminAdded(
                member.deep_view(),
            ),
            GroupStateChange::Other { code } => ChangeContent::Other(*code),
        }
    }
}

impl DeepView for GroupEvent {
    type V = EventContent;

    open spec fn deep_view(&self) -> EventContent {
        match self {
            GroupEvent::GroupCreated { group_id } => EventContent::GroupCreated(
                group_id.deep_view(),
            ),
            GroupEvent::GroupJoined { group_id, via_welcome } => EventContent::GroupJoined(
                group_id.deep_view(),
                via_welcome.deep_view(),
            ),
            GroupEvent::MessageReceived {
                group_id,
                message_id,
                sender,
                epoch,
                payload,
                retention,
            } => EventContent::MessageReceived(
                group_id.deep_view(),
                message_id.deep_view(),
                sender.deep_view(),
                *epoch,
                payload@,
                *retention,
            ),
            GroupEvent::GroupStateChanged { group_id, change } => EventContent::GroupStateChanged(
                group_id.deep_view(),
                change.deep_view(),
            ),
            GroupEvent::EpochChanged { group_id, from, to } => EventContent::EpochChanged(
                group_id.deep_view(),
                *from,
                *to,
            ),
            GroupEvent::TransportObjectResourceRefused {
                group_id,
            } => EventContent::ResourceRefused(group_id.deep_view()),
            GroupEvent::Other { group_id, code } => EventContent::Other(
                group_id.deep_view(),
                *code,
            ),
        }
    }
}

impl Key for GroupStateChange {
    fn same(&self, other: &Self) -> (equal: bool) {
        match (self, other) {
            (GroupStateChange::GroupDisbanded, GroupStateChange::GroupDisbanded) => true,
            (
                GroupStateChange::MemberAdded { member: a },
                GroupStateChange::MemberAdded { member: b },
            ) => a.same(b),
            (
                GroupStateChange::MemberRemoved { member: a },
                GroupStateChange::MemberRemoved { member: b },
            ) => a.same(b),
            (
                GroupStateChange::MemberLeft { member: a },
                GroupStateChange::MemberLeft { member: b },
            ) => a.same(b),
            (
                GroupStateChange::AdminAdded { member: a },
                GroupStateChange::AdminAdded { member: b },
            ) => a.same(b),
            (GroupStateChange::Other { code: a }, GroupStateChange::Other { code: b }) => *a == *b,
            _ => false,
        }
    }

    fn duplicate(&self) -> (copy: Self) {
        match self {
            GroupStateChange::GroupDisbanded => GroupStateChange::GroupDisbanded,
            GroupStateChange::MemberAdded { member } => GroupStateChange::MemberAdded {
                member: member.duplicate(),
            },
            GroupStateChange::MemberRemoved { member } => GroupStateChange::MemberRemoved {
                member: member.duplicate(),
            },
            GroupStateChange::MemberLeft { member } => GroupStateChange::MemberLeft {
                member: member.duplicate(),
            },
            GroupStateChange::AdminAdded { member } => GroupStateChange::AdminAdded {
                member: member.duplicate(),
            },
            GroupStateChange::Other { code } => GroupStateChange::Other { code: *code },
        }
    }
}

fn same_optional_number(left: Option<u64>, right: Option<u64>) -> (equal: bool)
    ensures
        equal == (left == right),
{
    match (left, right) {
        (Some(a), Some(b)) => a == b,
        (None, None) => true,
        _ => false,
    }
}

fn same_optional_group(left: &Option<GroupId>, right: &Option<GroupId>) -> (equal: bool)
    ensures
        equal == (left.deep_view() == right.deep_view()),
{
    match (left, right) {
        (Some(a), Some(b)) => a.same(b),
        (None, None) => true,
        _ => false,
    }
}

pub fn copy_optional_group(group: &Option<GroupId>) -> (copy: Option<GroupId>)
    ensures
        copy.deep_view() == group.deep_view(),
{
    match group {
        Some(id) => Some(id.duplicate()),
        None => None,
    }
}

impl Key for GroupEvent {
    fn same(&self, other: &Self) -> (equal: bool) {
        match (self, other) {
            (
                GroupEvent::GroupCreated { group_id: a },
                GroupEvent::GroupCreated { group_id: b },
            ) => a.same(b),
            (
                GroupEvent::GroupJoined { group_id: a, via_welcome: v },
                GroupEvent::GroupJoined { group_id: b, via_welcome: w },
            ) => a.same(b) && v.same(w),
            (
                GroupEvent::MessageReceived {
                    group_id: a,
                    message_id: m,
                    sender: s,
                    epoch: e,
                    payload: p,
                    retention: r,
                },
                GroupEvent::MessageReceived {
                    group_id: b,
                    message_id: n,
                    sender: t,
                    epoch: f,
                    payload: q,
                    retention: u,
                },
            ) => a.same(b) && m.same(n) && s.same(t) && *e == *f && same_bytes(p, q)
                && same_optional_number(*r, *u),
            (
                GroupEvent::GroupStateChanged { group_id: a, change: c },
                GroupEvent::GroupStateChanged { group_id: b, change: d },
            ) => a.same(b) && c.same(d),
            (
                GroupEvent::EpochChanged { group_id: a, from: f, to: t },
                GroupEvent::EpochChanged { group_id: b, from: g, to: u },
            ) => a.same(b) && *f == *g && *t == *u,
            (
                GroupEvent::TransportObjectResourceRefused { group_id: a },
                GroupEvent::TransportObjectResourceRefused { group_id: b },
            ) => a.same(b),
            (
                GroupEvent::Other { group_id: a, code: c },
                GroupEvent::Other { group_id: b, code: d },
            ) => same_optional_group(a, b) && *c == *d,
            _ => false,
        }
    }

    fn duplicate(&self) -> (copy: Self) {
        match self {
            GroupEvent::GroupCreated { group_id } => GroupEvent::GroupCreated {
                group_id: group_id.duplicate(),
            },
            GroupEvent::GroupJoined { group_id, via_welcome } => GroupEvent::GroupJoined {
                group_id: group_id.duplicate(),
                via_welcome: via_welcome.duplicate(),
            },
            GroupEvent::MessageReceived {
                group_id,
                message_id,
                sender,
                epoch,
                payload,
                retention,
            } => GroupEvent::MessageReceived {
                group_id: group_id.duplicate(),
                message_id: message_id.duplicate(),
                sender: sender.duplicate(),
                epoch: *epoch,
                payload: copy_bytes(payload),
                retention: *retention,
            },
            GroupEvent::GroupStateChanged { group_id, change } => GroupEvent::GroupStateChanged {
                group_id: group_id.duplicate(),
                change: change.duplicate(),
            },
            GroupEvent::EpochChanged { group_id, from, to } => GroupEvent::EpochChanged {
                group_id: group_id.duplicate(),
                from: *from,
                to: *to,
            },
            GroupEvent::TransportObjectResourceRefused {
                group_id,
            } => GroupEvent::TransportObjectResourceRefused { group_id: group_id.duplicate() },
            GroupEvent::Other { group_id, code } => GroupEvent::Other {
                group_id: copy_optional_group(group_id),
                code: *code,
            },
        }
    }
}

/// The group that an event concerns.
pub open spec fn event_group(event: EventContent) -> Option<Seq<u8>> {
    match event {
        EventContent::GroupCreated(group) => Some(group),
        EventContent::GroupJoined(group, _) => Some(group),
        EventContent::MessageReceived(group, _, _, _, _, _) => Some(group),
        EventContent::GroupStateChanged(group, _) => Some(group),
        EventContent::EpochChanged(group, _, _) => Some(group),
        EventContent::ResourceRefused(group) => Some(group),
        EventContent::Other(group, _) => group,
    }
}

/// The group that an event concerns.
pub fn event_group_id(event: &GroupEvent) -> (group: Option<&GroupId>)
    ensures
        match group {
            Some(id) => event_group(event.deep_view()) == Some(id.deep_view()),
            None => event_group(event.deep_view()) is None,
        },
{
    match event {
        GroupEvent::GroupCreated { group_id } => Some(group_id),
        GroupEvent::GroupJoined { group_id, .. } => Some(group_id),
        GroupEvent::MessageReceived { group_id, .. } => Some(group_id),
        GroupEvent::GroupStateChanged { group_id, .. } => Some(group_id),
        GroupEvent::EpochChanged { group_id, .. } => Some(group_id),
        GroupEvent::TransportObjectResourceRefused { group_id } => Some(group_id),
        GroupEvent::Other { group_id, .. } => group_id.as_ref(),
    }
}

/// The key under which the engine keeps an application event until it is acknowledged.
pub open spec fn outbox_key(event: EventContent) -> Option<Seq<u8>> {
    match event {
        EventContent::MessageReceived(_, message, _, _, _, _) => Some(message),
        EventContent::GroupJoined(_, welcome) => Some(welcome),
        _ => None,
    }
}

/// The key under which the engine keeps an application event until it is acknowledged.
pub fn application_event_id(event: &GroupEvent) -> (id: Option<&MessageId>)
    ensures
        match id {
            Some(id) => outbox_key(event.deep_view()) == Some(id.deep_view()),
            None => outbox_key(event.deep_view()) is None,
        },
{
    match event {
        GroupEvent::MessageReceived { message_id, .. } => Some(message_id),
        GroupEvent::GroupJoined { via_welcome, .. } => Some(via_welcome),
        _ => None,
    }
}

/// The source text of a replayed event: its outbox key in hexadecimal, or nothing.
pub fn synthetic_source_message_id(event: &GroupEvent) -> (text: String)
    ensures
        text@ == (match outbox_key(event.deep_view()) {
            Some(key) => hex_text(key),
            None => Seq::empty(),
        }),
{
    match application_event_id(event) {
        Some(id) => hex_encode(id.bytes.as_slice()),
        None => String::new(),
    }
}

/// How the local account stands in a group.
#[derive(Clone, Copy, Debug, PartialEq, Eq, Structural)]
pub enum SelfMembership {
    Member,
    Left,
    Removed,
}

/// The departing member and how the departure is recorded.
pub open spec fn departure(change: ChangeContent) -> Option<(Seq<u8>, SelfMembership)> {
    match change {
        ChangeContent::MemberLeft(member) => Some((member, SelfMembership::Left)),
        ChangeContent::MemberRemoved(member) => Some((member, SelfMembership::Removed)),
        _ => None,
    }
}

/// Classifies a change that ends a member's participation: leaving is `Left`,
/// being evicted is `Removed`.
pub fn member_departure(change: &GroupStateChange) -> (found: Option<(&MemberId, SelfMembership)>)
    ensures
        match found {
            Some((member, membership)) => departure(change.deep_view()) == Some(
                (member.deep_view(), membership),
            ),
            None => departure(change.deep_view()) is None,
        },
{
    match change {
        GroupStateChange::MemberLeft { member } => Some((member, SelfMembership::Left)),
        GroupStateChange::MemberRemoved { member } => Some((member, SelfMembership::Removed)),
        _ => None,
    }
}

/// Whether the departing member is the local account.
pub open spec fn local_departure(change: ChangeContent, local_account_id_hex: Seq<char>) -> bool {
    departure(change) matches Some((member, _)) && same_ignoring_ascii_case(
        hex_text(member),
        local_account_id_hex,
    )
}

/// Whether a change discards the local account's unsent work for the group: the
/// group was disbanded, or the local account left it or was removed.
pub fn terminates_local_outbound_queue(
    change: &GroupStateChange,
    local_account_id_hex: &str,
) -> (terminates: bool)
    ensures
        terminates == (change.deep_view() is GroupDisbanded || local_departure(
            change.deep_view(),
            local_account_id_hex@,
        )),
{
    match change {
        GroupStateChange::GroupDisbanded => true,
        _ => match member_departure(change) {
            Some((member, _)) => {
                let member_hex = hex_encode(member.bytes.as_slice());
                eq_ignore_ascii_case(member_hex.as_str(), local_account_id_hex)
            },
            None => false,
        },
    }
}

/// What one event asks of the stored projections.
#[derive(Debug, PartialEq, Eq)]
pub struct EventProjectionPlan {
    /// The member whose push tokens go.
    pub departed_member_hex: Option<String>,
    /// The membership to record for the local account.
    pub self_membership: Option<SelfMembership>,
    /// The group is gone: drop its push tokens and rebuild the routes.
    pub group_disbanded: bool,
    /// Withdraw the sends that are still queued for the group.
    pub withdraw_pending_sends: bool,
}

/// The member whose participation an event ends.
pub open spec fn departed_member(event: EventContent) -> Option<Seq<u8>> {
    match event {
        EventContent::GroupStateChanged(_, change) => match departure(change) {
            Some((member, _)) => Some(member),
            None => None,
        },
        _ => None,
    }
}

/// The membership that an event gives the local account.
pub open spec fn recorded_membership(
    event: EventContent,
    local_account_id_hex: Seq<char>,
) -> Option<SelfMembership> {
    match event {
        EventContent::GroupStateChanged(_, change) => if local_departure(
            change,
            local_account_id_hex,
        ) {
            Some(departure(change)->Some_0.1)
        } else {
            None
        },
        EventContent::GroupJoined(_, _) => Some(SelfMembership::Member),
        EventContent::GroupCreated(_) => Some(SelfMembership::Member),
        _ => None,
    }
}

/// Whether an event disbands its group.
pub open spec fn disbands(event: EventContent) -> bool {
    event matches EventContent::GroupStateChanged(_, change) && change is GroupDisbanded
}

/// Decides what an observed event asks of the stored projections, beyond the
/// in-memory state.
pub fn plan_event_projection(event: &GroupEvent, local_account_id_hex: &str) -> (plan:
    EventProjectionPlan)
    ensures
        match plan.departed_member_hex {
            Some(hex) => departed_member(event.deep_view()) matches Some(member) && hex@
                == hex_text(member),
            None => departed_member(event.deep_view()) is None,
        },
        plan.self_membership == recorded_membership(event.deep_view(), local_account_id_hex@),
        plan.group_disbanded == disbands(event.deep_view()),
        plan.withdraw_pending_sends == (event.deep_view() matches EventContent::GroupStateChanged(
            _,
            change,
        ) && (change is GroupDisbanded || local_departure(change, local_account_id_hex@))),
        *event is GroupJoined || *event is GroupCreated ==> plan.self_membership == Some(
            SelfMembership::Member,
        ),
        *event is GroupStateChanged || *event is GroupJoined || *event is GroupCreated
            || plan.self_membership is None,
        *event matches GroupEvent::GroupStateChanged { change, .. } ==> match change {
            GroupStateChange::MemberLeft { member } => {
                &&& plan.departed_member_hex.deep_view() == Some(hex_text(member.deep_view()))
                &&& plan.self_membership == (if same_ignoring_ascii_case(
                    hex_text(member.deep_view()),
                    local_account_id_hex@,
                ) {
                    Some(SelfMembership::Left)
                } else {
                    None
                })
                &&& plan.withdraw_pending_sends == (plan.self_membership is Some)
                &&& !plan.group_disbanded
            },
            GroupStateChange::MemberRemoved { member } => {
                &&& plan.departed_member_hex.deep_view() == Some(hex_text(member.deep_view()))
                &&& plan.self_membership == (if same_ignoring_ascii_case(
                    hex_text(member.deep_view()),
                    local_account_id_hex@,
                ) {
                    Some(SelfMembership::Removed)
                } else {
                    None
                })
                &&& plan.withdraw_pending_sends == (plan.self_membership is Some)
                &&& !plan.group_disbanded
            },
            GroupStateChange::GroupDisbanded => {
                &&& plan.departed_member_hex is None
                &&& plan.self_membership is None
                &&& plan.withdraw_pending_sends
                &&& plan.group_disbanded
            },
            _ => {
                &&& plan.departed_member_hex is None
                &&& plan.self_membership is None
                &&& !plan.withdraw_pending_sends
                &&& !plan.group_disbanded
            },
        },
{
    let mut plan = EventProjectionPlan {
        departed_member_hex: None,
        self_membership: None,
        group_disbanded: false,
        withdraw_pending_sends: false,
    };
    match event {
        GroupEvent::GroupStateChanged { change, .. } => {
            if let Some((member, membership)) = member_departure(change) {
                let member_hex = hex_encode(member.bytes.as_slice());
                if eq_ignore_ascii_case(member_hex.as_str(), local_account_id_hex) {
                    plan.self_membership = Some(membership);
                }
                plan.departed_member_hex = Some(member_hex);
            }
            if let GroupStateChange::GroupDisbanded = change {
                plan.group_disbanded = true;
            }
            plan.withdraw_pending_sends = terminates_local_outbound_queue(
                change,
                local_account_id_hex,
            );
        },
        GroupEvent::GroupJoined { .. } => {
            plan.self_membership = Some(SelfMembership::Member);
        },
        GroupEvent::GroupCreated { .. } => {
            plan.self_membership = Some(SelfMembership::Member);
        },
        _ => {},
    }
    plan
}

/// The departure that changes the local membership is the one that discards the
/// local queue: the two never disagree about who left.
pub proof fn law_membership_and_queue_agree(change: ChangeContent, group: Seq<u8>, local: Seq<char>)
    ensures
        ({
            let event = EventContent::GroupStateChanged(group, change);
            recorded_membership(event, local) is Some <==> local_departure(change, local)
        }),
{
}

/// Joining or creating a group makes the local account a member of it. It stops
/// being one only by a change that names it: it is recorded as having left where it
/// left, as removed where it was removed, and no other event touches its membership.
pub proof fn law_membership_follows_the_event(event: EventContent, local: Seq<char>)
    ensures
        recorded_membership(event, local) == Some(SelfMembership::Member) <==> (event is GroupJoined
            || event is GroupCreated),
        recorded_membership(event, local) == Some(SelfMembership::Left) <==> (event matches
            EventContent::GroupStateChanged(_, ChangeContent::MemberLeft(member))
            && same_ignoring_ascii_case(hex_text(member), local)),
        recorded_membership(event, local) == Some(SelfMembership::Removed) <==> (event matches
            EventContent::GroupStateChanged(_, ChangeContent::MemberRemoved(member))
            && same_ignoring_ascii_case(hex_text(member), local)),
{
}

/// A departure is told of exactly the member that left or was removed, and the
/// group is gone exactly where it was disbanded: no event does both.
pub proof fn law_departure_and_disbanding_are_told_apart(event: EventContent)
    ensures
        departed_member(event) matches Some(member) ==> (event matches
            EventContent::GroupStateChanged(_, change) && (change == ChangeContent::MemberLeft(
            member,
        ) || change == ChangeContent::MemberRemoved(member))),
        event matches EventContent::GroupStateChanged(_, ChangeContent::MemberLeft(member))
            ==> departed_member(event) == Some(member),
        event matches EventContent::GroupStateChanged(_, ChangeContent::MemberRemoved(member))
            ==> departed_member(event) == Some(member),
        disbands(event) <==> event matches EventContent::GroupStateChanged(
            _,
            ChangeContent::GroupDisbanded,
        ),
        !(disbands(event) && departed_member(event) is Some),
{
}

/// The engine is owed an acknowledgement for a received message under the message's
/// own id, for a join under that of its welcome, and for nothing else.
pub proof fn law_messages_and_welcomes_are_acknowledged(event: EventContent)
    ensures
        event matches EventContent::MessageReceived(_, message, _, _, _, _) ==> outbox_key(event)
            == Some(message),
        event matches EventContent::GroupJoined(_, welcome) ==> outbox_key(event) == Some(welcome),
        outbox_key(event) is Some ==> event is MessageReceived || event is GroupJoined,
{
}

/// A peer's departure neither records a membership nor touches the local queue.
pub proof fn law_peer_departure_is_local_no_op(
    change: ChangeContent,
    group: Seq<u8>,
    member: Seq<u8>,
    local: Seq<char>,
)
    requires
        departure(change) matches Some((m, _)) && m == member,
        !same_ignoring_ascii_case(hex_text(member), local),
    ensures
        recorded_membership(EventContent::GroupStateChanged(group, change), local) is None,
        !(change is GroupDisbanded) && !local_departure(change, local),
{
}

} // verus!
