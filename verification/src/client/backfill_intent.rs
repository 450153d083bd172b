//! Intents to replay history for stalled groups, and their stored form.

use crate::collections::{copy_bytes, pair_lookup, Key, KeyMap};
use crate::error::AppError;
use crate::ids::{lemma_bytes_order_laws, GroupId};
use crate::order::{
    bytes_less, bytes_lt, is_sorted, lemma_bytes_lt_total, lemma_same_elements, sort_stable,
    Ordered,
};
use crate::text::{hex_decode, hex_encode, hex_bytes, hex_text, is_hex_text};
use vstd::prelude::*;

verus! {

/// Why a replay was put off.
#[derive(Clone, Copy, Debug, PartialEq, Eq, Structural)]
pub enum EpochBackfillDeferredReason {
    GroupEpochUnavailable,
}

/// A group beside the epoch that was seen of it, if any.
#[derive(Debug, PartialEq, Eq)]
pub struct DeferredGroupEpoch {
    pub group_id: GroupId,
    pub observed_epoch: Option<u64>,
}

impl DeepView for DeferredGroupEpoch {
    type V = (Seq<u8>, Option<u64>);

    open spec fn deep_view(&self) -> (Seq<u8>, Option<u64>) {
        (self.group_id.deep_view(), self.observed_epoch)
    }
}

impl Ordered for DeferredGroupEpoch {
    open spec fn before(&self, other: &Self) -> bool {
        bytes_lt(self.group_id.bytes@, other.group_id.bytes@)
    }

    proof fn order_laws(first: &Self, second: &Self, third: &Self) {
        lemma_bytes_order_laws(
            first.group_id.bytes@,
            second.group_id.bytes@,
            third.group_id.bytes@,
        );
    }

    fn precedes(&self, other: &Self) -> (earlier: bool) {
        bytes_less(self.group_id.bytes.as_slice(), other.group_id.bytes.as_slice())
    }
}

impl Key for DeferredGroupEpoch {
    fn same(&self, other: &Self) -> (equal: bool) {
        self.group_id.same(&other.group_id) && match (self.observed_epoch, other.observed_epoch) {
            (Some(a), Some(b)) => a == b,
            (None, None) => true,
            _ => false,
        }
    }

    fn duplicate(&self) -> (copy: Self) {
        DeferredGroupEpoch {
            group_id: self.group_id.duplicate(),
            observed_epoch: self.observed_epoch,
        }
    }
}

/// What was last audited of a deferral.
#[derive(Debug, PartialEq, Eq)]
pub struct EpochBackfillDeferredSnapshot {
    pub reason: EpochBackfillDeferredReason,
    pub retry_ordinal: u64,
    pub group_epochs: Vec<DeferredGroupEpoch>,
}

/// The content of an [`EpochBackfillDeferredSnapshot`].
#[verifier::ext_equal]
pub struct SnapshotContent {
    pub reason: EpochBackfillDeferredReason,
    pub retry_ordinal: u64,
    pub group_epochs: Seq<(Seq<u8>, Option<u64>)>,
}

impl DeepView for EpochBackfillDeferredSnapshot {
    type V = SnapshotContent;

    open spec fn deep_view(&self) -> SnapshotContent {
        SnapshotContent {
            reason: self.reason,
            retry_ordinal: self.retry_ordinal,
            group_epochs: self.group_epochs.deep_view(),
        }
    }
}

impl Key for EpochBackfillDeferredSnapshot {
    fn same(&self, other: &Self) -> (equal: bool) {
        if self.reason != other.reason || self.retry_ordinal != other.retry_ordinal
            || self.group_epochs.len() != other.group_epochs.len() {
            assert(self.deep_view().group_epochs.len() == self.group_epochs@.len());
            assert(other.deep_view().group_epochs.len() == other.group_epochs@.len());
            return false;
        }
        let mut i: usize = 0;
        while i < self.group_epochs.len()
            invariant
                i <= self.group_epochs@.len(),
                self.group_epochs@.len() == other.group_epochs@.len(),
                forall|j: int|
                    0 <= j < i ==> #[trigger] self.group_epochs@[j].deep_view()
                        == other.group_epochs@[j].deep_view(),
            decreases self.group_epochs.len() - i,
        {
            if !self.group_epochs[i].same(&other.group_epochs[i]) {
                assert(self.deep_view().group_epochs[i as int]
                    != other.deep_view().group_epochs[i as int]);
                return false;
            }
            i += 1;
        }
        assert(self.deep_view() =~= other.deep_view());
        true
    }

    fn duplicate(&self) -> (copy: Self) {
        EpochBackfillDeferredSnapshot {
            reason: self.reason,
            retry_ordinal: self.retry_ordinal,
            group_epochs: crate::collections::copy_list(&self.group_epochs),
        }
    }
}

/// An intent to replay the account's history for stalled groups, each with the
/// epoch at which it stalled.
#[derive(Debug)]
pub struct PendingEpochBackfill {
    pub attempt_id: String,
    pub groups: KeyMap<GroupId, u64>,
    pub execution_attempts: u32,
    pub eose_unconfirmed_attempts: u32,
    pub no_progress_attempts: u32,
    pub last_deferred_audit: Option<EpochBackfillDeferredSnapshot>,
}

/// The content of a [`PendingEpochBackfill`].
#[verifier::ext_equal]
pub struct IntentContent {
    pub attempt_id: Seq<char>,
    pub groups: Seq<Seq<u8>>,
    pub epochs: Seq<u64>,
    pub execution_attempts: u32,
    pub eose_unconfirmed_attempts: u32,
    pub no_progress_attempts: u32,
    pub last_deferred_audit: Option<SnapshotContent>,
}

impl DeepView for PendingEpochBackfill {
    type V = IntentContent;

    open spec fn deep_view(&self) -> IntentContent {
        IntentContent {
            attempt_id: self.attempt_id@,
            groups: self.groups.sequence(),
            epochs: self.groups.value_sequence(),
            execution_attempts: self.execution_attempts,
            eose_unconfirmed_attempts: self.eose_unconfirmed_attempts,
            no_progress_attempts: self.no_progress_attempts,
            last_deferred_audit: self.last_deferred_audit.deep_view(),
        }
    }
}

impl IntentContent {
    /// A fresh intent without groups.
    pub open spec fn fresh(attempt_id: Seq<char>) -> IntentContent {
        IntentContent {
            attempt_id,
            groups: Seq::empty(),
            epochs: Seq::empty(),
            execution_attempts: 0,
            eose_unconfirmed_attempts: 0,
            no_progress_attempts: 0,
            last_deferred_audit: None,
        }
    }

    /// The epoch at which a group of the intent stalled.
    pub open spec fn stalled_epoch(self, group: Seq<u8>) -> Option<u64> {
        pair_lookup(self.groups, self.epochs, group)
    }

    /// The intent without the groups that a list does not hold.
    pub open spec fn restricted(self, live: Seq<Seq<u8>>) -> IntentContent {
        IntentContent {
            groups: crate::collections::kept_keys(self.groups, live),
            epochs: crate::collections::kept_values(self.groups, self.epochs, live),
            ..self
        }
    }

    /// The intent with a group bound to an epoch.
    pub open spec fn armed(self, group: Seq<u8>, epoch: u64) -> IntentContent {
        if self.groups.contains(group) {
            IntentContent {
                epochs: self.epochs.update(self.groups.index_of(group), epoch),
                ..self
            }
        } else {
            IntentContent {
                groups: self.groups.push(group),
                epochs: self.epochs.push(epoch),
                ..self
            }
        }
    }
}

pub fn copy_optional_snapshot(snapshot: &Option<EpochBackfillDeferredSnapshot>) -> (copy: Option<
    EpochBackfillDeferredSnapshot,
>)
    ensures
        copy.deep_view() == snapshot.deep_view(),
{
    match snapshot {
        Some(held) => Some(held.duplicate()),
        None => None,
    }
}

impl PendingEpochBackfill {
    /// A fresh intent under an attempt identifier.
    pub fn new(attempt_id: String) -> (intent: Self)
        ensures
            intent.deep_view() == IntentContent::fresh(attempt_id@),
    {
        PendingEpochBackfill {
            attempt_id,
            groups: KeyMap::new(),
            execution_attempts: 0,
            eose_unconfirmed_attempts: 0,
            no_progress_attempts: 0,
            last_deferred_audit: None,
        }
    }

    /// A copy with the same content.
    pub fn duplicate(&self) -> (copy: Self)
        ensures
            copy.deep_view() == self.deep_view(),
    {
        PendingEpochBackfill {
            attempt_id: self.attempt_id.clone(),
            groups: self.groups.copy(),
            execution_attempts: self.execution_attempts,
            eose_unconfirmed_attempts: self.eose_unconfirmed_attempts,
            no_progress_attempts: self.no_progress_attempts,
            last_deferred_audit: copy_optional_snapshot(&self.last_deferred_audit),
        }
    }
}

/// One group of a stored intent.
#[derive(Debug, PartialEq, Eq)]
pub struct PersistedEpochBackfillGroup {
    pub group_id: Vec<u8>,
    pub stalled_epoch: u64,
}

impl DeepView for PersistedEpochBackfillGroup {
    type V = (Seq<u8>, u64);

    open spec fn deep_view(&self) -> (Seq<u8>, u64) {
        (self.group_id@, self.stalled_epoch)
    }
}

impl Ordered for PersistedEpochBackfillGroup {
    open spec fn before(&self, other: &Self) -> bool {
        bytes_lt(self.group_id@, other.group_id@)
    }

    proof fn order_laws(first: &Self, second: &Self, third: &Self) {
        lemma_bytes_order_laws(first.group_id@, second.group_id@, third.group_id@);
    }

    fn precedes(&self, other: &Self) -> (earlier: bool) {
        bytes_less(self.group_id.as_slice(), other.group_id.as_slice())
    }
}

/// One observed epoch of a stored deferral.
#[derive(Debug, PartialEq, Eq)]
pub struct PersistedEpochBackfillDeferredGroupEpoch {
    pub group_id: Vec<u8>,
    pub observed_epoch: Option<u64>,
}

impl DeepView for PersistedEpochBackfillDeferredGroupEpoch {
    type V = (Seq<u8>, Option<u64>);

    open spec fn deep_view(&self) -> (Seq<u8>, Option<u64>) {
        (self.group_id@, self.observed_epoch)
    }
}

/// The stored form of a deferral.
#[derive(Debug, PartialEq, Eq)]
pub struct PersistedEpochBackfillDeferredSnapshot {
    pub reason: EpochBackfillDeferredReason,
    pub retry_ordinal: u64,
    pub group_epochs: Vec<PersistedEpochBackfillDeferredGroupEpoch>,
}

impl DeepView for PersistedEpochBackfillDeferredSnapshot {
    type V = SnapshotContent;

    open spec fn deep_view(&self) -> SnapshotContent {
        SnapshotContent {
            reason: self.reason,
            retry_ordinal: self.retry_ordinal,
            group_epochs: self.group_epochs.deep_view(),
        }
    }
}

/// The stored form of an intent.
#[derive(Debug, PartialEq, Eq)]
pub struct PersistedEpochBackfillIntent {
    pub attempt_id: String,
    pub groups: Vec<PersistedEpochBackfillGroup>,
    pub execution_attempts: u32,
    pub eose_unconfirmed_attempts: u32,
    pub no_progress_attempts: u32,
    pub last_deferred_audit: Option<PersistedEpochBackfillDeferredSnapshot>,
}

/// The content of a [`PersistedEpochBackfillIntent`].
#[verifier::ext_equal]
pub struct PersistedContent {
    pub attempt_id: Seq<char>,
    pub groups: Seq<(Seq<u8>, u64)>,
    pub execution_attempts: u32,
    pub eose_unconfirmed_attempts: u32,
    pub no_progress_attempts: u32,
    pub last_deferred_audit: Option<SnapshotContent>,
}

impl DeepView for PersistedEpochBackfillIntent {
    type V = PersistedContent;

    open spec fn deep_view(&self) -> PersistedContent {
        PersistedContent {
            attempt_id: self.attempt_id@,
            groups: self.groups.deep_view(),
            execution_attempts: self.execution_attempts,
            eose_unconfirmed_attempts: self.eose_unconfirmed_attempts,
            no_progress_attempts: self.no_progress_attempts,
            last_deferred_audit: self.last_deferred_audit.deep_view(),
        }
    }
}

/// Groups in strictly ascending order of their identifiers.
pub open spec fn ascending_groups(groups: Seq<(Seq<u8>, u64)>) -> bool {
    forall|i: int, j: int|
        0 <= i < j < groups.len() ==> bytes_lt(#[trigger] groups[i].0, #[trigger] groups[j].0)
}

/// Whether a stored form is that of an intent: the same groups in ascending
/// order, everything else unchanged.
pub open spec fn persists(intent: IntentContent, stored: PersistedContent) -> bool {
    &&& stored.attempt_id == intent.attempt_id
    &&& stored.execution_attempts == intent.execution_attempts
    &&& stored.eose_unconfirmed_attempts == intent.eose_unconfirmed_attempts
    &&& stored.no_progress_attempts == intent.no_progress_attempts
    &&& stored.last_deferred_audit == intent.last_deferred_audit
    &&& ascending_groups(stored.groups)
    &&& stored.groups.len() == intent.groups.len()
    &&& forall|group: Seq<u8>, epoch: u64|
        #![trigger stored.groups.contains((group, epoch))]
        stored.groups.contains((group, epoch)) <==> intent.stalled_epoch(group) == Some(epoch)
}

/// The fault, if any, of the first stored group that cannot be restored.
pub open spec fn stored_groups_fault(groups: Seq<(Seq<u8>, u64)>) -> Option<Seq<char>>
    decreases groups.len(),
{
    if groups.len() == 0 {
        None
    } else {
        let earlier = groups.drop_last();
        match stored_groups_fault(earlier) {
            Some(text) => Some(text),
            None => if groups.last().0.len() == 0 {
                Some("invalid durable epoch-backfill intent group"@)
            } else if exists|i: int|
                0 <= i < earlier.len() && #[trigger] earlier[i].0 == groups.last().0 {
                Some("duplicate durable epoch-backfill intent group"@)
            } else {
                None
            },
        }
    }
}

/// Whether a stored deferral names a group without an identifier.
pub open spec fn snapshot_faulty(snapshot: Option<SnapshotContent>) -> bool {
    snapshot matches Some(held) && exists|i: int|
        0 <= i < held.group_epochs.len() && (#[trigger] held.group_epochs[i]).0.len() == 0
}

/// The fault, if any, for which a stored intent is refused.
pub open spec fn stored_intent_fault(stored: PersistedContent) -> Option<Seq<char>> {
    if stored.attempt_id.len() == 0 || stored.groups.len() == 0 {
        Some("invalid durable epoch-backfill intent journal"@)
    } else if stored_groups_fault(stored.groups) is Some {
        stored_groups_fault(stored.groups)
    } else if snapshot_faulty(stored.last_deferred_audit) {
        Some("invalid durable epoch-backfill deferral group"@)
    } else {
        None
    }
}

/// The intent that a stored form without fault restores.
pub open spec fn restored_intent(stored: PersistedContent) -> IntentContent {
    IntentContent {
        attempt_id: stored.attempt_id,
        groups: stored.groups.map_values(|g: (Seq<u8>, u64)| g.0),
        epochs: stored.groups.map_values(|g: (Seq<u8>, u64)| g.1),
        execution_attempts: stored.execution_attempts,
        eose_unconfirmed_attempts: stored.eose_unconfirmed_attempts,
        no_progress_attempts: stored.no_progress_attempts,
        last_deferred_audit: stored.last_deferred_audit,
    }
}

fn persist_snapshot(snapshot: &EpochBackfillDeferredSnapshot) -> (stored:
    PersistedEpochBackfillDeferredSnapshot)
    ensures
        stored.deep_view() == snapshot.deep_view(),
{
    let mut group_epochs: Vec<PersistedEpochBackfillDeferredGroupEpoch> = Vec::new();
    let mut i: usize = 0;
    while i < snapshot.group_epochs.len()
        invariant
            i <= snapshot.group_epochs@.len(),
            group_epochs@.len() == i,
            forall|j: int|
                0 <= j < i ==> #[trigger] group_epochs@[j].deep_view()
                    == snapshot.group_epochs@[j].deep_view(),
        decreases snapshot.group_epochs.len() - i,
    {
        group_epochs.push(
            PersistedEpochBackfillDeferredGroupEpoch {
                group_id: copy_bytes(&snapshot.group_epochs[i].group_id.bytes),
                observed_epoch: snapshot.group_epochs[i].observed_epoch,
            },
        );
        i += 1;
    }
    let stored = PersistedEpochBackfillDeferredSnapshot {
        reason: snapshot.reason,
        retry_ordinal: snapshot.retry_ordinal,
        group_epochs,
    };
    assert(stored.deep_view() =~= snapshot.deep_view());
    stored
}

proof fn lemma_sorted_groups_persist(
    unsorted: Seq<PersistedEpochBackfillGroup>,
    sorted: Seq<PersistedEpochBackfillGroup>,
    keys: Seq<Seq<u8>>,
    values: Seq<u64>,
)
    requires
        keys.no_duplicates(),
        keys.len() == values.len(),
        unsorted.len() == keys.len(),
        forall|i: int|
            0 <= i < keys.len() ==> #[trigger] unsorted[i].deep_view() == (keys[i], values[i]),
        is_sorted(sorted),
        sorted.to_multiset() == unsorted.to_multiset(),
    ensures
        ({
            let stored = Seq::new(sorted.len(), |i: int| sorted[i].deep_view());
            &&& ascending_groups(stored)
            &&& stored.len() == keys.len()
            &&& forall|group: Seq<u8>, epoch: u64|
                #![trigger stored.contains((group, epoch))]
                stored.contains((group, epoch)) <==> pair_lookup(keys, values, group) == Some(
                    epoch,
                )
        }),
{
    broadcast use vstd::seq_lib::group_to_multiset_ensures;

    lemma_same_elements(sorted, unsorted);
    let stored = Seq::new(sorted.len(), |i: int| sorted[i].deep_view());
    assert(unsorted.no_duplicates()) by {
        assert forall|i: int, j: int|
            0 <= i < unsorted.len() && 0 <= j < unsorted.len() && i != j implies unsorted[i]
            != unsorted[j] by {
            assert(unsorted[i].deep_view().0 == keys[i]);
            assert(unsorted[j].deep_view().0 == keys[j]);
        }
    }
    unsorted.lemma_multiset_has_no_duplicates();
    sorted.lemma_multiset_has_no_duplicates_conv();
    assert forall|i: int, j: int| 0 <= i < j < stored.len() implies bytes_lt(
        #[trigger] stored[i].0,
        #[trigger] stored[j].0,
    ) by {
        assert(!sorted[j].before(&sorted[i]));
        lemma_bytes_lt_total(stored[i].0, stored[j].0);
        if stored[i].0 == stored[j].0 {
            assert(sorted.contains(sorted[i]) && sorted.contains(sorted[j]));
            let a = choose|a: int| 0 <= a < unsorted.len() && unsorted[a] == sorted[i];
            let b = choose|b: int| 0 <= b < unsorted.len() && unsorted[b] == sorted[j];
            assert(unsorted[a].deep_view().0 == keys[a]);
            assert(unsorted[b].deep_view().0 == keys[b]);
            assert(a == b);
            assert(sorted[i] == sorted[j]);
        }
    }
    assert forall|group: Seq<u8>, epoch: u64|
        #![trigger stored.contains((group, epoch))]
        stored.contains((group, epoch)) <==> pair_lookup(keys, values, group) == Some(epoch) by {
        if stored.contains((group, epoch)) {
            let i = choose|i: int| 0 <= i < stored.len() && stored[i] == (group, epoch);
            assert(sorted.contains(sorted[i]));
            let a = choose|a: int| 0 <= a < unsorted.len() && unsorted[a] == sorted[i];
            assert(unsorted[a].deep_view() == (keys[a], values[a]));
            assert(keys.index_of(group) == a);
        }
        if pair_lookup(keys, values, group) == Some(epoch) {
            let a = keys.index_of(group);
            assert(unsorted[a].deep_view() == (keys[a], values[a]));
            assert(unsorted.contains(unsorted[a]));
            let i = choose|i: int| 0 <= i < sorted.len() && sorted[i] == unsorted[a];
            assert(stored[i] == (group, epoch));
        }
    }
}

impl PersistedEpochBackfillIntent {
    /// The stored form of an intent.
    pub fn of(pending: &PendingEpochBackfill) -> (stored: Self)
        ensures
            persists(pending.deep_view(), stored.deep_view()),
    {
        let mut groups: Vec<PersistedEpochBackfillGroup> = Vec::new();
        let count: usize = pending.groups.len();
        let mut i: usize = 0;
        while i < count
            invariant
                i <= count,
                count == pending.groups.sequence().len(),
                count == pending.groups.value_sequence().len(),
                groups@.len() == i,
                forall|j: int|
                    0 <= j < i ==> #[trigger] groups@[j].deep_view() == (
                        pending.groups.sequence()[j],
                        pending.groups.value_sequence()[j],
                    ),
            decreases count - i,
        {
            groups.push(
                PersistedEpochBackfillGroup {
                    group_id: copy_bytes(&pending.groups.key_at(i).bytes),
                    stalled_epoch: *pending.groups.value_at(i),
                },
            );
            i += 1;
        }
        let ghost unsorted = groups@;
        let groups = sort_stable(groups);
        proof {
            lemma_sorted_groups_persist(
                unsorted,
                groups@,
                pending.groups.sequence(),
                pending.groups.value_sequence(),
            );
            assert(groups.deep_view() =~= Seq::new(
                groups@.len(),
                |i: int| groups@[i].deep_view(),
            ));
        }
        let last_deferred_audit = match &pending.last_deferred_audit {
            Some(snapshot) => Some(persist_snapshot(snapshot)),
            None => None,
        };
        PersistedEpochBackfillIntent {
            attempt_id: pending.attempt_id.clone(),
            groups,
            execution_attempts: pending.execution_attempts,
            eose_unconfirmed_attempts: pending.eose_unconfirmed_attempts,
            no_progress_attempts: pending.no_progress_attempts,
            last_deferred_audit,
        }
    }
}

fn restore_snapshot(stored: PersistedEpochBackfillDeferredSnapshot) -> (restored: Result<
    EpochBackfillDeferredSnapshot,
    AppError,
>)
    ensures
        match restored {
            Ok(snapshot) => !snapshot_faulty(Some(stored.deep_view())) && snapshot.deep_view()
                == stored.deep_view(),
            Err(error) => snapshot_faulty(Some(stored.deep_view())) && (error matches AppError::BlockingTask(text)
                && text@ == "invalid durable epoch-backfill deferral group"@),
        },
{
    let mut group_epochs: Vec<DeferredGroupEpoch> = Vec::new();
    let mut i: usize = 0;
    while i < stored.group_epochs.len()
        invariant
            i <= stored.group_epochs@.len(),
            group_epochs@.len() == i,
            forall|j: int|
                0 <= j < i ==> #[trigger] group_epochs@[j].deep_view()
                    == stored.group_epochs@[j].deep_view(),
            forall|j: int| 0 <= j < i ==> (#[trigger] stored.group_epochs@[j]).group_id@.len() > 0,
        decreases stored.group_epochs.len() - i,
    {
        if stored.group_epochs[i].group_id.len() == 0 {
            assert(stored.deep_view().group_epochs[i as int].0.len() == 0);
            return Err(
                AppError::BlockingTask(
                    "invalid durable epoch-backfill deferral group".to_owned(),
                ),
            );
        }
        group_epochs.push(
            DeferredGroupEpoch {
                group_id: GroupId::new(copy_bytes(&stored.group_epochs[i].group_id)),
                observed_epoch: stored.group_epochs[i].observed_epoch,
            },
        );
        i += 1;
    }
    let snapshot = EpochBackfillDeferredSnapshot {
        reason: stored.reason,
        retry_ordinal: stored.retry_ordinal,
        group_epochs,
    };
    assert(snapshot.deep_view() =~= stored.deep_view());
    assert forall|j: int| 0 <= j < stored.deep_view().group_epochs.len() implies (
    #[trigger] stored.deep_view().group_epochs[j]).0.len() > 0 by {
        assert(stored.group_epochs@[j].group_id@.len() > 0);
    }
    Ok(snapshot)
}

impl PendingEpochBackfill {
    /// Restores an intent from its stored form, or says what is wrong with it.
    pub fn try_restore(stored: PersistedEpochBackfillIntent) -> (restored: Result<Self, AppError>)
        ensures
            match restored {
                Ok(intent) => stored_intent_fault(stored.deep_view()) is None && intent.deep_view()
                    == restored_intent(stored.deep_view()),
                Err(error) => stored_intent_fault(stored.deep_view()) matches Some(fault) && (
                error matches AppError::BlockingTask(text) && text@ == fault),
            },
    {
        if stored.attempt_id.as_str().is_empty() || stored.groups.len() == 0 {
            return Err(
                AppError::BlockingTask(
                    "invalid durable epoch-backfill intent journal".to_owned(),
                ),
            );
        }
        let ghost all = stored.groups.deep_view();
        let mut groups: KeyMap<GroupId, u64> = KeyMap::new();
        let mut i: usize = 0;
        assert(all.take(0) =~= Seq::<(Seq<u8>, u64)>::empty());
        assert(groups.sequence() =~= all.take(0).map_values(|g: (Seq<u8>, u64)| g.0));
        assert(groups.value_sequence() =~= all.take(0).map_values(|g: (Seq<u8>, u64)| g.1));
        while i < stored.groups.len()
            invariant
                i <= stored.groups@.len(),
                stored.attempt_id@.len() > 0,
                all == stored.groups.deep_view(),
                stored_groups_fault(all.take(i as int)) is None,
                groups.sequence() == all.take(i as int).map_values(|g: (Seq<u8>, u64)| g.0),
                groups.value_sequence() == all.take(i as int).map_values(|g: (Seq<u8>, u64)| g.1),
            decreases stored.groups.len() - i,
        {
            let ghost earlier = all.take(i as int);
            assert(all.take(i + 1).drop_last() =~= earlier);
            assert(all.take(i + 1).last() == stored.groups@[i as int].deep_view());
            if stored.groups[i].group_id.len() == 0 {
                proof {
                    lemma_fault_persists(all, i + 1);
                }
                return Err(
                    AppError::BlockingTask(
                        "invalid durable epoch-backfill intent group".to_owned(),
                    ),
                );
            }
            let id = GroupId::new(copy_bytes(&stored.groups[i].group_id));
            let ghost key = id.deep_view();
            let fresh = groups.insert(id, stored.groups[i].stalled_epoch);
            if !fresh {
                proof {
                    let keys = earlier.map_values(|g: (Seq<u8>, u64)| g.0);
                    let k = choose|k: int| 0 <= k < keys.len() && keys[k] == key;
                    assert(earlier[k].0 == key);
                    lemma_fault_persists(all, i + 1);
                }
                return Err(
                    AppError::BlockingTask(
                        "duplicate durable epoch-backfill intent group".to_owned(),
                    ),
                );
            }
            proof {
                let keys = earlier.map_values(|g: (Seq<u8>, u64)| g.0);
                assert forall|k: int| 0 <= k < earlier.len() implies #[trigger] earlier[k].0
                    != all.take(i + 1).last().0 by {
                    assert(keys[k] == earlier[k].0);
                    assert(keys.contains(keys[k]));
                }
                assert(all.take(i + 1).map_values(|g: (Seq<u8>, u64)| g.0) =~= keys.push(key));
                assert(all.take(i + 1).map_values(|g: (Seq<u8>, u64)| g.1)
                    =~= earlier.map_values(|g: (Seq<u8>, u64)| g.1).push(
                    stored.groups@[i as int].stalled_epoch,
                ));
            }
            i += 1;
        }
        assert(all.take(stored.groups@.len() as int) =~= all);
        let last_deferred_audit = match stored.last_deferred_audit {
            Some(snapshot) => match restore_snapshot(snapshot) {
                Ok(restored) => Some(restored),
                Err(error) => {
                    return Err(error);
                },
            },
            None => None,
        };
        Ok(
            PendingEpochBackfill {
                attempt_id: stored.attempt_id,
                groups,
                execution_attempts: stored.execution_attempts,
                eose_unconfirmed_attempts: stored.eose_unconfirmed_attempts,
                no_progress_attempts: stored.no_progress_attempts,
                last_deferred_audit,
            },
        )
    }
}

proof fn lemma_fault_persists(groups: Seq<(Seq<u8>, u64)>, count: int)
    requires
        0 <= count <= groups.len(),
        stored_groups_fault(groups.take(count)) is Some,
    ensures
        stored_groups_fault(groups) == stored_groups_fault(groups.take(count)),
    decreases groups.len() - count,
{
    if count == groups.len() {
        assert(groups.take(count) =~= groups);
    } else {
        assert(groups.take(count + 1).drop_last() =~= groups.take(count));
        lemma_fault_persists(groups, count + 1);
    }
}

/// An intent that could have been stored: it has an attempt identifier and a
/// group, and no group without an identifier.
pub open spec fn storable(intent: IntentContent) -> bool {
    &&& intent.attempt_id.len() > 0
    &&& intent.groups.len() > 0
    &&& intent.groups.len() == intent.epochs.len()
    &&& intent.groups.no_duplicates()
    &&& !intent.groups.contains(Seq::empty())
    &&& !snapshot_faulty(intent.last_deferred_audit)
}

proof fn lemma_ascending_has_no_fault(groups: Seq<(Seq<u8>, u64)>)
    requires
        ascending_groups(groups),
        forall|i: int| 0 <= i < groups.len() ==> (#[trigger] groups[i]).0.len() > 0,
    ensures
        stored_groups_fault(groups) is None,
    decreases groups.len(),
{
    if groups.len() > 0 {
        let earlier = groups.drop_last();
        assert forall|i: int, j: int| 0 <= i < j < earlier.len() implies bytes_lt(
            #[trigger] earlier[i].0,
            #[trigger] earlier[j].0,
        ) by {
            assert(bytes_lt(groups[i].0, groups[j].0));
        }
        assert forall|i: int| 0 <= i < earlier.len() implies (#[trigger] earlier[i]).0.len()
            > 0 by {
            assert(groups[i].0.len() > 0);
        }
        lemma_ascending_has_no_fault(earlier);
        assert forall|i: int| 0 <= i < earlier.len() implies #[trigger] earlier[i].0
            != groups.last().0 by {
            assert(bytes_lt(groups[i].0, groups[groups.len() - 1].0));
            lemma_bytes_lt_total(groups[i].0, groups.last().0);
        }
    }
}

/// An intent survives being stored and restored: the restored intent has the
/// same groups at the same epochs, the same counters and the same deferral.
pub proof fn law_stored_intent_restores(intent: IntentContent, stored: PersistedContent)
    requires
        storable(intent),
        persists(intent, stored),
    ensures
        stored_intent_fault(stored) is None,
        restored_intent(stored).attempt_id == intent.attempt_id,
        restored_intent(stored).execution_attempts == intent.execution_attempts,
        restored_intent(stored).eose_unconfirmed_attempts == intent.eose_unconfirmed_attempts,
        restored_intent(stored).no_progress_attempts == intent.no_progress_attempts,
        restored_intent(stored).last_deferred_audit == intent.last_deferred_audit,
        restored_intent(stored).groups.len() == intent.groups.len(),
        forall|group: Seq<u8>|
            #[trigger] restored_intent(stored).stalled_epoch(group) == intent.stalled_epoch(group),
{
    assert forall|i: int| 0 <= i < stored.groups.len() implies (
    #[trigger] stored.groups[i]).0.len() > 0 by {
        let (group, epoch) = stored.groups[i];
        assert(stored.groups.contains((group, epoch)));
        assert(intent.stalled_epoch(group) == Some(epoch));
        assert(intent.groups.contains(group));
        if group.len() == 0 {
            assert(group =~= Seq::<u8>::empty());
        }
    }
    lemma_ascending_has_no_fault(stored.groups);
    let restored = restored_intent(stored);
    assert forall|group: Seq<u8>| #[trigger]
        restored.stalled_epoch(group) == intent.stalled_epoch(group) by {
        if restored.groups.contains(group) {
            let i = restored.groups.index_of(group);
            assert(restored.groups[i] == group);
            assert(stored.groups[i] == (group, restored.epochs[i]));
            assert(stored.groups.contains((group, restored.epochs[i])));
        } else if intent.groups.contains(group) {
            let epoch = intent.stalled_epoch(group)->Some_0;
            assert(stored.groups.contains((group, epoch)));
            let i = choose|i: int|
                0 <= i < stored.groups.len() && stored.groups[i] == (group, epoch);
            assert(restored.groups[i] == group);
        }
    }
}

/// One row of the table of armed groups.
#[derive(Debug, PartialEq, Eq)]
pub struct StoredEpochBackfillIntent {
    pub group_id_hex: String,
    pub stalled_epoch: u64,
}

/// The rows of the table for an intent, one per group.
pub fn stored_epoch_backfill_intents(pending: &PendingEpochBackfill) -> (rows: Vec<
    StoredEpochBackfillIntent,
>)
    ensures
        rows@.len() == pending.deep_view().groups.len(),
        forall|i: int|
            0 <= i < rows@.len() ==> (#[trigger] rows@[i]).group_id_hex@ == hex_text(
                pending.deep_view().groups[i],
            ) && rows@[i].stalled_epoch == pending.deep_view().epochs[i],
{
    let mut rows: Vec<StoredEpochBackfillIntent> = Vec::new();
    let count: usize = pending.groups.len();
    let mut i: usize = 0;
    while i < count
        invariant
            i <= count,
            count == pending.groups.sequence().len(),
            count == pending.groups.value_sequence().len(),
            rows@.len() == i,
            forall|j: int|
                0 <= j < i ==> (#[trigger] rows@[j]).group_id_hex@ == hex_text(
                    pending.groups.sequence()[j],
                ) && rows@[j].stalled_epoch == pending.groups.value_sequence()[j],
        decreases count - i,
    {
        rows.push(
            StoredEpochBackfillIntent {
                group_id_hex: hex_encode(pending.groups.key_at(i).bytes.as_slice()),
                stalled_epoch: *pending.groups.value_at(i),
            },
        );
        i += 1;
    }
    rows
}

/// The epoch that the rows of the table give a group: the last well-formed row
/// that names it decides.
pub open spec fn table_epoch(rows: Seq<StoredEpochBackfillIntent>, group: Seq<u8>) -> Option<u64>
    decreases rows.len(),
{
    if rows.len() == 0 {
        None
    } else if is_hex_text(rows.last().group_id_hex@) && hex_bytes(rows.last().group_id_hex@)
        == group {
        Some(rows.last().stalled_epoch)
    } else {
        table_epoch(rows.drop_last(), group)
    }
}

/// How many rows are not hexadecimal.
pub open spec fn malformed_rows(rows: Seq<StoredEpochBackfillIntent>) -> nat
    decreases rows.len(),
{
    if rows.len() == 0 {
        0
    } else {
        malformed_rows(rows.drop_last()) + if is_hex_text(rows.last().group_id_hex@) {
            0nat
        } else {
            1nat
        }
    }
}

/// Reads the table of armed groups. Rows that are not hexadecimal are counted
/// and ignored.
pub fn read_backfill_table(rows: &Vec<StoredEpochBackfillIntent>) -> (table: (
    KeyMap<GroupId, u64>,
    usize,
))
    ensures
        forall|group: Seq<u8>| #[trigger] table.0.lookup(group) == table_epoch(rows@, group),
        table.1 == malformed_rows(rows@),
{
    let mut groups: KeyMap<GroupId, u64> = KeyMap::new();
    let mut malformed: usize = 0;
    let mut i: usize = 0;
    assert(rows@.take(0) =~= Seq::<StoredEpochBackfillIntent>::empty());
    while i < rows.len()
        invariant
            i <= rows@.len(),
            malformed <= i,
            malformed == malformed_rows(rows@.take(i as int)),
            forall|group: Seq<u8>| #[trigger]
                groups.lookup(group) == table_epoch(rows@.take(i as int), group),
        decreases rows.len() - i,
    {
        assert(rows@.take(i + 1).drop_last() =~= rows@.take(i as int));
        let ghost before = groups;
        match hex_decode(rows[i].group_id_hex.as_str()) {
            Ok(bytes) => {
                let _ = groups.insert(GroupId::new(bytes), rows[i].stalled_epoch);
                assert forall|group: Seq<u8>| #[trigger]
                    groups.lookup(group) == table_epoch(rows@.take(i + 1), group) by {
                    assert(before.lookup(group) == table_epoch(rows@.take(i as int), group));
                }
            },
            Err(_) => {
                malformed += 1;
                assert forall|group: Seq<u8>| #[trigger]
                    groups.lookup(group) == table_epoch(rows@.take(i + 1), group) by {
                    assert(before.lookup(group) == table_epoch(rows@.take(i as int), group));
                }
            },
        }
        i += 1;
    }
    assert(rows@.take(rows@.len() as int) =~= rows@);
    (groups, malformed)
}

} // verus!
