//! Reading a batch of effects: which groups it touches, what it says of stalled
//! groups, and which events may bring a locally deleted group back.

use crate::client::cursor::CursorPersistence;
use crate::client::events::{event_group, event_group_id, EventContent, GroupEvent};
use crate::client::visibility::{AccountDeviceEffects, OutboundActionOutcome, PublishedAppMessage};
use crate::collections::{Key, KeySet};
use crate::ids::GroupId;
use crate::order::{extend_unique, push_unique, push_unique_text};
use crate::text::{hex_encode, hex_text};
use vstd::prelude::*;

verus! {

/// What the engine did with a delivery.
#[derive(Debug, PartialEq, Eq)]
pub enum IngestOutcome {
    Processed,
    Buffered { group_id: GroupId },
    /// Kept, but not yet readable.
    TransportDeferred,
    /// A local bound refused it.
    ResourceRefused { group_id: GroupId },
    Other,
}

/// The content of an [`IngestOutcome`].
pub enum OutcomeContent {
    Processed,
    Buffered(Seq<u8>),
    TransportDeferred,
    ResourceRefused(Seq<u8>),
    Other,
}

impl DeepView for IngestOutcome {
    type V = OutcomeContent;

    open spec fn deep_view(&self) -> OutcomeContent {
        match self {
            IngestOutcome::Processed => OutcomeContent::Processed,
            IngestOutcome::Buffered { group_id } => OutcomeContent::Buffered(group_id.deep_view()),
            IngestOutcome::TransportDeferred => OutcomeContent::TransportDeferred,
            IngestOutcome::ResourceRefused { group_id } => OutcomeContent::ResourceRefused(
                group_id.deep_view(),
            ),
            IngestOutcome::Other => OutcomeContent::Other,
        }
    }
}

impl Key for IngestOutcome {
    fn same(&self, other: &Self) -> (equal: bool) {
        match (self, other) {
            (IngestOutcome::Processed, IngestOutcome::Processed) => true,
            (
                IngestOutcome::Buffered { group_id: a },
                IngestOutcome::Buffered { group_id: b },
            ) => a.same(b),
            (IngestOutcome::TransportDeferred, IngestOutcome::TransportDeferred) => true,
            (
                IngestOutcome::ResourceRefused { group_id: a },
                IngestOutcome::ResourceRefused { group_id: b },
            ) => a.same(b),
            (IngestOutcome::Other, IngestOutcome::Other) => true,
            _ => false,
        }
    }

    fn duplicate(&self) -> (copy: Self) {
        match self {
            IngestOutcome::Processed => IngestOutcome::Processed,
            IngestOutcome::Buffered { group_id } => IngestOutcome::Buffered {
                group_id: group_id.duplicate(),
            },
            IngestOutcome::TransportDeferred => IngestOutcome::TransportDeferred,
            IngestOutcome::ResourceRefused { group_id } => IngestOutcome::ResourceRefused {
                group_id: group_id.duplicate(),
            },
            IngestOutcome::Other => IngestOutcome::Other,
        }
    }
}

/// When convergence of a group runs next.
#[derive(Clone, Copy, Debug, PartialEq, Eq, Structural)]
pub enum ConvergenceScheduleState {
    /// Nothing is pending.
    Idle,
    /// A pass collects; it runs when the earliest cutoff is over.
    Collecting { remaining_ms: u64 },
    /// A pass can run now.
    Ready,
    /// Input is pending, but no pass can open yet.
    PendingUnopenable,
    /// No input is pending, but queued sends are.
    PendingOutbound,
}

/// The state that a cutoff gives.
pub open spec fn cutoff_state(remaining_ms: u64) -> ConvergenceScheduleState {
    if remaining_ms == 0 {
        ConvergenceScheduleState::Ready
    } else {
        ConvergenceScheduleState::Collecting { remaining_ms }
    }
}

/// The earlier of a cutoff and an optional second one.
pub open spec fn earlier_cutoff(remaining_ms: u64, other: Option<u64>) -> u64 {
    match other {
        Some(ms) => if ms < remaining_ms {
            ms
        } else {
            remaining_ms
        },
        None => remaining_ms,
    }
}

/// Decides when convergence of a group runs next.
pub fn convergence_schedule_state(
    convergence_delay_ms: Option<u64>,
    deferred_peel_delay_ms: Option<u64>,
    has_pending_inputs: bool,
    has_queued_outbound: bool,
) -> (state: ConvergenceScheduleState)
    ensures
        state == (match convergence_delay_ms {
            Some(remaining) => cutoff_state(earlier_cutoff(remaining, deferred_peel_delay_ms)),
            None => if has_pending_inputs {
                ConvergenceScheduleState::PendingUnopenable
            } else if has_queued_outbound {
                ConvergenceScheduleState::PendingOutbound
            } else {
                match deferred_peel_delay_ms {
                    Some(remaining) => cutoff_state(remaining),
                    None => ConvergenceScheduleState::Idle,
                }
            },
        }),
        state is Idle ==> convergence_delay_ms is None && deferred_peel_delay_ms is None
            && !has_pending_inputs && !has_queued_outbound,
{
    match convergence_delay_ms {
        Some(remaining) => {
            if remaining == 0 {
                return ConvergenceScheduleState::Ready;
            }
            let remaining_ms: u64 = match deferred_peel_delay_ms {
                Some(ms) => if ms < remaining {
                    ms
                } else {
                    remaining
                },
                None => remaining,
            };
            if remaining_ms == 0 {
                ConvergenceScheduleState::Ready
            } else {
                ConvergenceScheduleState::Collecting { remaining_ms }
            }
        },
        None => {
            if has_pending_inputs {
                ConvergenceScheduleState::PendingUnopenable
            } else if has_queued_outbound {
                ConvergenceScheduleState::PendingOutbound
            } else {
                match deferred_peel_delay_ms {
                    Some(remaining_ms) => if remaining_ms == 0 {
                        ConvergenceScheduleState::Ready
                    } else {
                        ConvergenceScheduleState::Collecting { remaining_ms }
                    },
                    None => ConvergenceScheduleState::Idle,
                }
            }
        },
    }
}

/// Evidence for the stall detector.
#[derive(Debug, PartialEq, Eq)]
pub enum RecoveryEvidence {
    /// The device moved through epochs of a group.
    EpochPassage { group_id: GroupId, from: u64, to: u64 },
    /// A local bound refused an object of a group.
    ResourceRefusal { group_id: GroupId },
}

/// The content of a piece of [`RecoveryEvidence`].
pub enum EvidenceContent {
    EpochPassage(Seq<u8>, u64, u64),
    ResourceRefusal(Seq<u8>),
}

impl DeepView for RecoveryEvidence {
    type V = EvidenceContent;

    open spec fn deep_view(&self) -> EvidenceContent {
        match self {
            RecoveryEvidence::EpochPassage { group_id, from, to } => EvidenceContent::EpochPassage(
                group_id.deep_view(),
                *from,
                *to,
            ),
            RecoveryEvidence::ResourceRefusal { group_id } => EvidenceContent::ResourceRefusal(
                group_id.deep_view(),
            ),
        }
    }
}

/// The evidence that events carry, in order.
pub open spec fn evidence_of(events: Seq<GroupEvent>) -> Seq<EvidenceContent>
    decreases events.len(),
{
    if events.len() == 0 {
        Seq::empty()
    } else {
        let rest = evidence_of(events.drop_last());
        match events.last().deep_view() {
            EventContent::EpochChanged(group, from, to) => rest.push(
                EvidenceContent::EpochPassage(group, from, to),
            ),
            EventContent::ResourceRefused(group) => rest.push(
                EvidenceContent::ResourceRefusal(group),
            ),
            _ => rest,
        }
    }
}

/// The evidence for the stall detector in a batch, in engine order. A runtime
/// that may not move the cursor owns no recovery and reports none.
pub fn observe_recovery_evidence(
    policy: CursorPersistence,
    events: &Vec<GroupEvent>,
) -> (evidence: Vec<RecoveryEvidence>)
    ensures
        policy is Frozen ==> evidence@.len() == 0,
        policy is Advance ==> evidence.deep_view() == evidence_of(events@),
{
    let mut evidence: Vec<RecoveryEvidence> = Vec::new();
    match policy {
        CursorPersistence::Frozen => {
            return evidence;
        },
        CursorPersistence::Advance => {},
    }
    let mut i: usize = 0;
    assert(events@.take(0) =~= Seq::<GroupEvent>::empty());
    assert(evidence.deep_view() =~= Seq::<EvidenceContent>::empty());
    while i < events.len()
        invariant
            i <= events@.len(),
            evidence.deep_view() == evidence_of(events@.take(i as int)),
        decreases events.len() - i,
    {
        let ghost before = evidence.deep_view();
        assert(events@.take(i + 1).drop_last() =~= events@.take(i as int));
        match &events[i] {
            GroupEvent::EpochChanged { group_id, from, to } => {
                let piece = RecoveryEvidence::EpochPassage {
                    group_id: group_id.clone(),
                    from: *from,
                    to: *to,
                };
                let ghost added = piece.deep_view();
                evidence.push(piece);
                assert(evidence.deep_view() =~= before.push(added));
            },
            GroupEvent::TransportObjectResourceRefused { group_id } => {
                let piece = RecoveryEvidence::ResourceRefusal { group_id: group_id.clone() };
                let ghost added = piece.deep_view();
                evidence.push(piece);
                assert(evidence.deep_view() =~= before.push(added));
            },
            _ => {},
        }
        i += 1;
    }
    assert(events@.take(events@.len() as int) =~= events@);
    evidence
}

/// What a delivery tells the stall detector about its group.
#[derive(Clone, Copy, Debug, PartialEq, Eq, Structural)]
pub enum StallObservation {
    /// Nothing: no group, no known epoch, or a runtime without recovery.
    Nothing,
    /// A delivery that could not be read at this epoch.
    Undecryptable { epoch: u64 },
    /// A refusal at this epoch.
    ResourceRefusal { epoch: u64 },
    /// The device stands at this epoch.
    Landing { epoch: u64 },
}

/// Reads a delivery's outcome for the stall detector.
pub fn detect_epoch_stall(
    policy: CursorPersistence,
    group_id_hint: &Option<GroupId>,
    group_epoch: Option<u64>,
    outcome: &IngestOutcome,
) -> (observation: StallObservation)
    ensures
        policy is Frozen || group_id_hint is None || group_epoch is None ==> observation is Nothing,
        policy is Advance && group_id_hint is Some && group_epoch is Some ==> observation == (
        match outcome {
            IngestOutcome::TransportDeferred => StallObservation::Undecryptable {
                epoch: group_epoch->Some_0,
            },
            IngestOutcome::ResourceRefused { .. } => StallObservation::ResourceRefusal {
                epoch: group_epoch->Some_0,
            },
            _ => StallObservation::Landing { epoch: group_epoch->Some_0 },
        }),
{
    match policy {
        CursorPersistence::Frozen => StallObservation::Nothing,
        CursorPersistence::Advance => match (group_id_hint, group_epoch) {
            (Some(_), Some(epoch)) => match outcome {
                IngestOutcome::TransportDeferred => StallObservation::Undecryptable { epoch },
                IngestOutcome::ResourceRefused { .. } => StallObservation::ResourceRefusal {
                    epoch,
                },
                _ => StallObservation::Landing { epoch },
            },
            _ => StallObservation::Nothing,
        },
    }
}

/// The groups that events concern, with repetitions.
pub open spec fn event_groups(events: Seq<GroupEvent>) -> Seq<Seq<u8>>
    decreases events.len(),
{
    if events.len() == 0 {
        Seq::empty()
    } else {
        let rest = event_groups(events.drop_last());
        match event_group(events.last().deep_view()) {
            Some(group) => rest.push(group),
            None => rest,
        }
    }
}

pub open spec fn published_groups(messages: Seq<PublishedAppMessage>) -> Seq<Seq<u8>> {
    Seq::new(messages.len(), |i: int| messages[i].group_id.deep_view())
}

/// The groups that a batch touches: those of its events, then those of its
/// published messages, each once.
pub fn affected_groups(effects: &AccountDeviceEffects) -> (groups: KeySet<GroupId>)
    ensures
        groups.sequence() == extend_unique(
            extend_unique(Seq::empty(), event_groups(effects@.events)),
            published_groups(effects@.published_app_messages),
        ),
{
    let mut groups: KeySet<GroupId> = KeySet::new();
    let mut i: usize = 0;
    assert(effects.events@.take(0) =~= Seq::<GroupEvent>::empty());
    while i < effects.events.len()
        invariant
            i <= effects.events@.len(),
            groups.sequence() == extend_unique(
                Seq::empty(),
                event_groups(effects.events@.take(i as int)),
            ),
        decreases effects.events.len() - i,
    {
        let ghost rest = event_groups(effects.events@.take(i as int));
        assert(effects.events@.take(i + 1).drop_last() =~= effects.events@.take(i as int));
        match event_group_id(&effects.events[i]) {
            Some(id) => {
                assert(rest.push(id.deep_view()).drop_last() =~= rest);
                let _ = groups.insert(id.clone());
            },
            None => {},
        }
        i += 1;
    }
    assert(effects.events@.take(effects.events@.len() as int) =~= effects.events@);
    let ghost from_events = groups.sequence();
    let ghost all = published_groups(effects.published_app_messages@);
    let mut k: usize = 0;
    assert(all.take(0) =~= Seq::<Seq<u8>>::empty());
    while k < effects.published_app_messages.len()
        invariant
            k <= effects.published_app_messages@.len(),
            all == published_groups(effects.published_app_messages@),
            groups.sequence() == extend_unique(from_events, all.take(k as int)),
        decreases effects.published_app_messages.len() - k,
    {
        assert(all.take(k + 1).drop_last() =~= all.take(k as int));
        let _ = groups.insert(effects.published_app_messages[k].group_id.clone());
        k += 1;
    }
    assert(all.take(all.len() as int) =~= all);
    groups
}

/// The group whose convergence carries a replayed outbound operation: that of
/// the source, else of the first event with a group, else of the first message.
pub fn primary_outbound_group(
    source_group_id: &Option<GroupId>,
    effects: &AccountDeviceEffects,
) -> (group: Option<GroupId>)
    ensures
        group.deep_view() == (match source_group_id.deep_view() {
            Some(id) => Some(id),
            None => if event_groups(effects@.events).len() > 0 {
                Some(event_groups(effects@.events)[0])
            } else if effects@.published_app_messages.len() > 0 {
                Some(effects@.published_app_messages[0].group_id.deep_view())
            } else {
                None
            },
        }),
{
    match source_group_id {
        Some(id) => {
            return Some(id.clone());
        },
        None => {},
    }
    let mut i: usize = 0;
    assert(effects.events@.take(0) =~= Seq::<GroupEvent>::empty());
    while i < effects.events.len()
        invariant
            i <= effects.events@.len(),
            source_group_id is None,
            event_groups(effects.events@.take(i as int)).len() == 0,
        decreases effects.events.len() - i,
    {
        assert(effects.events@.take(i + 1).drop_last() =~= effects.events@.take(i as int));
        match event_group_id(&effects.events[i]) {
            Some(id) => {
                proof {
                    lemma_event_groups_prefix(effects.events@, i + 1);
                }
                return Some(id.clone());
            },
            None => {},
        }
        i += 1;
    }
    assert(effects.events@.take(effects.events@.len() as int) =~= effects.events@);
    if effects.published_app_messages.len() > 0 {
        Some(effects.published_app_messages[0].group_id.clone())
    } else {
        None
    }
}

proof fn lemma_event_groups_prefix(events: Seq<GroupEvent>, count: int)
    requires
        0 <= count <= events.len(),
        event_groups(events.take(count)).len() > 0,
    ensures
        event_groups(events).len() > 0,
        event_groups(events)[0] == event_groups(events.take(count))[0],
    decreases events.len() - count,
{
    if count == events.len() {
        assert(events.take(count) =~= events);
    } else {
        assert(events.take(count + 1).drop_last() =~= events.take(count));
        lemma_event_groups_prefix(events, count + 1);
    }
}

/// The groups that the account has left: those of published leave actions.
pub open spec fn left_groups(outcomes: Seq<OutboundActionOutcome>) -> Seq<Seq<char>>
    decreases outcomes.len(),
{
    if outcomes.len() == 0 {
        Seq::empty()
    } else {
        let rest = left_groups(outcomes.drop_last());
        if outcomes.last().published {
            rest.push(hex_text(outcomes.last().group_id.deep_view()))
        } else {
            rest
        }
    }
}

/// The groups to record as left. An action that was not published moves nothing.
pub fn apply_published_outbound_action_outcomes(outcomes: &Vec<OutboundActionOutcome>) -> (left:
    Vec<String>)
    ensures
        left.deep_view() == left_groups(outcomes@),
{
    let mut left: Vec<String> = Vec::new();
    let mut i: usize = 0;
    assert(outcomes@.take(0) =~= Seq::<OutboundActionOutcome>::empty());
    assert(left.deep_view() =~= Seq::<Seq<char>>::empty());
    while i < outcomes.len()
        invariant
            i <= outcomes@.len(),
            left.deep_view() == left_groups(outcomes@.take(i as int)),
        decreases outcomes.len() - i,
    {
        let ghost before = left.deep_view();
        assert(outcomes@.take(i + 1).drop_last() =~= outcomes@.take(i as int));
        if outcomes[i].published {
            let text = hex_encode(outcomes[i].group_id.bytes.as_slice());
            left.push(text);
            assert(left.deep_view() =~= before.push(text@));
        }
        i += 1;
    }
    assert(outcomes@.take(outcomes@.len() as int) =~= outcomes@);
    left
}

/// The kinds of app messages that the client tells apart.
#[derive(Clone, Copy, Debug, PartialEq, Eq, Structural)]
pub struct AppEventKinds {
    pub chat: u64,
    pub delete: u64,
}

/// Whether an event brings a locally deleted group back: a new join, or a chat
/// message that came in after the deletion. A group that is gone for good stays gone.
pub open spec fn crosses_frontier(
    event: EventContent,
    group_terminal: bool,
    decoded_kind: Option<u64>,
    newer_than_frontier: bool,
    kinds: AppEventKinds,
) -> bool {
    &&& event_group(event) is Some
    &&& !group_terminal
    &&& match event {
        EventContent::GroupJoined(_, _) => true,
        EventContent::MessageReceived(_, _, _, _, _, _) => decoded_kind == Some(kinds.chat)
            && newer_than_frontier,
        _ => false,
    }
}

/// Decides whether an event brings a locally deleted group back. `decoded_kind`
/// is the kind of the message, if it decodes; `newer_than_frontier` whether it
/// came in after the deletion.
pub fn local_deleted_group_event_crosses_frontier(
    event: &GroupEvent,
    group_terminal: bool,
    decoded_kind: Option<u64>,
    newer_than_frontier: bool,
    kinds: AppEventKinds,
) -> (crosses: bool)
    ensures
        crosses == crosses_frontier(
            event.deep_view(),
            group_terminal,
            decoded_kind,
            newer_than_frontier,
            kinds,
        ),
{
    if event_group_id(event).is_none() || group_terminal {
        return false;
    }
    match event {
        GroupEvent::GroupJoined { .. } => true,
        GroupEvent::MessageReceived { .. } => match decoded_kind {
            Some(kind) => kind == kinds.chat && newer_than_frontier,
            None => false,
        },
        _ => false,
    }
}

/// A message that does not decode, or is no chat message, never brings a deleted
/// group back.
pub proof fn law_only_chat_brings_a_group_back(
    group: Seq<u8>,
    message: Seq<u8>,
    sender: Seq<u8>,
    epoch: u64,
    payload: Seq<u8>,
    retention: Option<u64>,
    decoded_kind: Option<u64>,
    newer: bool,
    kinds: AppEventKinds,
)
    requires
        decoded_kind != Some(kinds.chat),
    ensures
        !crosses_frontier(
            EventContent::MessageReceived(group, message, sender, epoch, payload, retention),
            false,
            decoded_kind,
            newer,
            kinds,
        ),
{
}

/// The hexadecimal groups whose deletion frontier a batch must look up, each once.
pub open spec fn frontier_texts(events: Seq<GroupEvent>) -> Seq<Seq<char>>
    decreases events.len(),
{
    if events.len() == 0 {
        Seq::empty()
    } else {
        let rest = frontier_texts(events.drop_last());
        match event_group(events.last().deep_view()) {
            Some(group) => push_unique(rest, hex_text(group)),
            None => rest,
        }
    }
}

/// The groups whose deletion frontier is read before any event of a batch is
/// projected, so that every event is judged by the same state.
pub fn local_group_deletion_frontiers_at_batch_start(events: &Vec<GroupEvent>) -> (groups: Vec<
    String,
>)
    ensures
        groups.deep_view() == frontier_texts(events@),
{
    let mut groups: Vec<String> = Vec::new();
    let mut i: usize = 0;
    assert(events@.take(0) =~= Seq::<GroupEvent>::empty());
    assert(groups.deep_view() =~= Seq::<Seq<char>>::empty());
    while i < events.len()
        invariant
            i <= events@.len(),
            groups.deep_view() == frontier_texts(events@.take(i as int)),
        decreases events.len() - i,
    {
        assert(events@.take(i + 1).drop_last() =~= events@.take(i as int));
        match event_group_id(&events[i]) {
            Some(id) => {
                push_unique_text(&mut groups, hex_encode(id.bytes.as_slice()));
            },
            None => {},
        }
        i += 1;
    }
    assert(events@.take(events@.len() as int) =~= events@);
    groups
}

/// How a received message is projected.
#[derive(Clone, Copy, Debug, PartialEq, Eq, Structural)]
pub enum MessageProjection {
    /// Push-token gossip: taken in, but not shown.
    Gossip,
    /// A timeline row. `moderation_grant` lets a deletion hit others' messages;
    /// `keeps_media_secret` keeps the key of its media.
    Row { moderation_grant: bool, keeps_media_secret: bool },
}

/// Decides how a received message is projected.
pub fn project_received_message(
    kind: u64,
    is_push_gossip: bool,
    media_tags_valid: bool,
    sender_may_moderate: bool,
    kinds: AppEventKinds,
) -> (projection: MessageProjection)
    ensures
        projection == (if is_push_gossip {
            MessageProjection::Gossip
        } else {
            MessageProjection::Row {
                moderation_grant: kind == kinds.delete && sender_may_moderate,
                keeps_media_secret: kind == kinds.chat && media_tags_valid,
            }
        }),
{
    if is_push_gossip {
        MessageProjection::Gossip
    } else {
        MessageProjection::Row {
            moderation_grant: kind == kinds.delete && sender_may_moderate,
            keeps_media_secret: kind == kinds.chat && media_tags_valid,
        }
    }
}

} // verus!
