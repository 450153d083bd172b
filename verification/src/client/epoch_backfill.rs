//! The queue of replay intents: pacing, execution, recovery after an interruption
//! and the stored journal.

use crate::client::backfill_intent::{
    DeferredGroupEpoch, EpochBackfillDeferredReason, EpochBackfillDeferredSnapshot, IntentContent,
    PendingEpochBackfill, SnapshotContent,
};
use crate::client::drain::saturated;
use crate::collections::{kept_keys, lemma_kept, Key, KeyMap};
use crate::ids::GroupId;
use crate::order::{
    bytes_lt, is_sorted, lemma_bytes_lt_total, lemma_same_elements, sort_stable, Ordered,
};
use vstd::prelude::*;

verus! {

/// The version of the stored journal.
pub const EPOCH_BACKFILL_INTENT_JOURNAL_VERSION: u32 = 1;

/// The first wait after a replay that did not recover anything, in milliseconds.
pub const EPOCH_BACKFILL_RETRY_BACKOFF_MS: u64 = 15_000;

/// The longest such wait, in milliseconds.
pub const EPOCH_BACKFILL_RETRY_BACKOFF_CAP_MS: u64 = 300_000;

/// Two to the power of a number.
pub open spec fn power_of_two(exponent: nat) -> nat
    decreases exponent,
{
    if exponent == 0 {
        1
    } else {
        2 * power_of_two((exponent - 1) as nat)
    }
}

/// The base doubled once per ordinal, at most eight times, up to the cap or to
/// the base itself where that is longer.
pub open spec fn backoff_ms(base_ms: u64, retry_ordinal: u64) -> int {
    let exponent: nat = if retry_ordinal < 8 {
        retry_ordinal as nat
    } else {
        8
    };
    let longest: int = if base_ms > EPOCH_BACKFILL_RETRY_BACKOFF_CAP_MS {
        base_ms as int
    } else {
        EPOCH_BACKFILL_RETRY_BACKOFF_CAP_MS as int
    };
    let doubled: int = base_ms * power_of_two(exponent);
    if doubled < longest {
        doubled
    } else {
        longest
    }
}

/// The wait before a replay may be tried again.
pub fn retry_backoff_for_ordinal(base_ms: u64, retry_ordinal: u64) -> (wait_ms: u64)
    ensures
        wait_ms == backoff_ms(base_ms, retry_ordinal),
{
    let exponent: u64 = if retry_ordinal < 8 {
        retry_ordinal
    } else {
        8
    };
    let mut factor: u64 = 1;
    let mut i: u64 = 0;
    proof {
        lemma_power_of_two_monotonic(0, 8);
    }
    while i < exponent
        invariant
            i <= exponent,
            exponent <= 8,
            factor == power_of_two(i as nat),
            factor <= power_of_two(8),
            power_of_two(8) == 256,
        decreases exponent - i,
    {
        proof {
            lemma_power_of_two_monotonic((i + 1) as nat, 8);
        }
        factor = factor * 2;
        i += 1;
    }
    let longest: u64 = if base_ms > EPOCH_BACKFILL_RETRY_BACKOFF_CAP_MS {
        base_ms
    } else {
        EPOCH_BACKFILL_RETRY_BACKOFF_CAP_MS
    };
    match base_ms.checked_mul(factor) {
        Some(doubled) => if doubled < longest {
            doubled
        } else {
            longest
        },
        None => longest,
    }
}

proof fn lemma_power_of_two_monotonic(low: nat, high: nat)
    requires
        low <= high,
    ensures
        power_of_two(low) <= power_of_two(high),
        power_of_two(8) == 256,
    decreases high,
{
    reveal_with_fuel(power_of_two, 9);
    if low < high {
        lemma_power_of_two_monotonic(low, (high - 1) as nat);
    }
}

/// A later attempt never waits less than an earlier one.
pub proof fn law_backoff_never_shrinks(base_ms: u64, earlier: u64, later: u64)
    requires
        earlier <= later,
    ensures
        backoff_ms(base_ms, earlier) <= backoff_ms(base_ms, later),
{
    let a: nat = if earlier < 8 {
        earlier as nat
    } else {
        8
    };
    let b: nat = if later < 8 {
        later as nat
    } else {
        8
    };
    lemma_power_of_two_monotonic(a, b);
    let x: int = power_of_two(a) as int;
    let y: int = power_of_two(b) as int;
    assert(base_ms * x <= base_ms * y) by (nonlinear_arith)
        requires
            x <= y,
    ;
}

/// Every wait lies between the base and the longer of base and cap.
pub proof fn law_backoff_is_bounded(base_ms: u64, retry_ordinal: u64)
    ensures
        base_ms <= backoff_ms(base_ms, retry_ordinal),
        backoff_ms(base_ms, retry_ordinal) <= base_ms || backoff_ms(base_ms, retry_ordinal)
            <= EPOCH_BACKFILL_RETRY_BACKOFF_CAP_MS,
{
    law_backoff_never_shrinks(base_ms, 0, retry_ordinal);
    assert(power_of_two(0) == 1);
    assert(base_ms * 1 == base_ms) by (nonlinear_arith);
}

pub open spec fn left_until(deadline: u64, now: u64) -> int {
    if deadline > now {
        deadline - now
    } else {
        0
    }
}

/// The wall clock in milliseconds, up to the largest number.
pub open spec fn unix_ms(unix_now_secs: u64) -> u64 {
    saturated(unix_now_secs * 1000)
}

fn to_unix_ms(unix_now_secs: u64) -> (ms: u64)
    ensures
        ms == unix_ms(unix_now_secs),
{
    match unix_now_secs.checked_mul(1000) {
        Some(ms) => ms,
        None => u64::MAX,
    }
}

/// The wall-clock deadline to store for a monotonic one. None once it has passed.
pub fn epoch_backfill_retry_deadline_unix_ms(
    not_before_ms: Option<u64>,
    now_ms: u64,
    unix_now_secs: u64,
) -> (deadline: Option<u64>)
    ensures
        deadline == (match not_before_ms {
            Some(not_before) => if left_until(not_before, now_ms) == 0 {
                None
            } else {
                Some(saturated(unix_ms(unix_now_secs) + left_until(not_before, now_ms)))
            },
            None => None,
        }),
{
    match not_before_ms {
        Some(not_before) => {
            let remaining: u64 = not_before.saturating_sub(now_ms);
            if remaining == 0 {
                None
            } else {
                Some(to_unix_ms(unix_now_secs).saturating_add(remaining))
            }
        },
        None => None,
    }
}

/// The wait that a stored deadline leaves, at most the longest wait.
pub open spec fn restored_wait(deadline_unix_ms: u64, unix_now_secs: u64) -> int {
    let remaining = left_until(deadline_unix_ms, unix_ms(unix_now_secs));
    if remaining < EPOCH_BACKFILL_RETRY_BACKOFF_CAP_MS {
        remaining
    } else {
        EPOCH_BACKFILL_RETRY_BACKOFF_CAP_MS as int
    }
}

/// The monotonic deadline that a stored wall-clock one leaves, if any.
pub fn restore_epoch_backfill_retry_deadline(
    deadline_unix_ms: Option<u64>,
    unix_now_secs: u64,
    now_ms: u64,
) -> (not_before: Option<u64>)
    ensures
        not_before == (match deadline_unix_ms {
            Some(deadline) => {
                let wait = restored_wait(deadline, unix_now_secs);
                if wait == 0 || now_ms + wait > u64::MAX {
                    None
                } else {
                    Some((now_ms + wait) as u64)
                }
            },
            None => None,
        }),
{
    match deadline_unix_ms {
        Some(deadline) => {
            let mut remaining: u64 = deadline.saturating_sub(to_unix_ms(unix_now_secs));
            if remaining == 0 {
                return None;
            }
            if remaining > EPOCH_BACKFILL_RETRY_BACKOFF_CAP_MS {
                remaining = EPOCH_BACKFILL_RETRY_BACKOFF_CAP_MS;
            }
            now_ms.checked_add(remaining)
        },
        None => None,
    }
}

/// A restored deadline never makes a device wait longer than the cap.
pub proof fn law_restored_deadline_is_capped(deadline_unix_ms: u64, unix_now_secs: u64)
    ensures
        0 <= restored_wait(deadline_unix_ms, unix_now_secs) <= EPOCH_BACKFILL_RETRY_BACKOFF_CAP_MS,
{
}

/// A wait that was stored is restored by a restart at the same wall-clock second,
/// up to the cap.
pub proof fn law_stored_deadline_restores(not_before: u64, now_ms: u64, unix_now_secs: u64)
    requires
        unix_now_secs * 1000 + left_until(not_before, now_ms) <= u64::MAX,
    ensures
        restored_wait(
            saturated(unix_ms(unix_now_secs) + left_until(not_before, now_ms)),
            unix_now_secs,
        ) == (if left_until(not_before, now_ms) < EPOCH_BACKFILL_RETRY_BACKOFF_CAP_MS {
            left_until(not_before, now_ms)
        } else {
            EPOCH_BACKFILL_RETRY_BACKOFF_CAP_MS as int
        }),
{
}

/// Where a replay is asked for.
#[derive(Clone, Copy, Debug, PartialEq, Eq, Structural)]
pub enum EpochBackfillExecutionSeam {
    Receive,
    Maintenance,
    ExplicitCatchUp,
}

/// What the stall detector decides of a group.
#[derive(Clone, Copy, Debug, PartialEq, Eq, Structural)]
pub enum BackfillDecision {
    Skip,
    Arm,
    ArmAndEscalate { arms: u32 },
}

impl BackfillDecision {
    pub fn arms_backfill(&self) -> (arms: bool)
        ensures
            arms == !(self is Skip),
    {
        match self {
            BackfillDecision::Skip => false,
            _ => true,
        }
    }
}

/// The replay intents of an account. The pending one runs next; the active one
/// runs now; the queued ones follow in order.
#[derive(Debug)]
pub struct EpochBackfillQueue {
    pub pending: Option<PendingEpochBackfill>,
    pub active: Option<PendingEpochBackfill>,
    pub queued: Vec<PendingEpochBackfill>,
    pub retry_not_before_ms: Option<u64>,
    pub journal_dirty: bool,
}

/// The content of an [`EpochBackfillQueue`].
#[verifier::ext_equal]
pub struct QueueContent {
    pub pending: Option<IntentContent>,
    pub active: Option<IntentContent>,
    pub queued: Seq<IntentContent>,
    pub retry_not_before_ms: Option<u64>,
    pub journal_dirty: bool,
}

impl DeepView for EpochBackfillQueue {
    type V = QueueContent;

    open spec fn deep_view(&self) -> QueueContent {
        QueueContent {
            pending: self.pending.deep_view(),
            active: self.active.deep_view(),
            queued: self.queued.deep_view(),
            retry_not_before_ms: self.retry_not_before_ms,
            journal_dirty: self.journal_dirty,
        }
    }
}

pub open spec fn optional_intent(intent: Option<IntentContent>) -> Seq<IntentContent> {
    match intent {
        Some(held) => seq![held],
        None => Seq::empty(),
    }
}

impl QueueContent {
    /// Every intent of the account.
    pub open spec fn intents(self) -> Seq<IntentContent> {
        optional_intent(self.pending) + optional_intent(self.active) + self.queued
    }

    /// The queue after an interrupted replay went back: first if nothing is
    /// pending, else last.
    pub open spec fn recovered(self) -> QueueContent {
        match self.active {
            None => self,
            Some(interrupted) => QueueContent { active: None, ..self }.requeued(interrupted),
        }
    }

    pub open spec fn requeued(self, failed: IntentContent) -> QueueContent {
        match self.pending {
            None => QueueContent { pending: Some(failed), ..self },
            Some(_) => QueueContent { queued: self.queued.push(failed), ..self },
        }
    }

    /// The intent that runs next.
    pub open spec fn next(self) -> Option<IntentContent> {
        match self.pending {
            Some(intent) => Some(intent),
            None => if self.queued.len() > 0 {
                Some(self.queued[0])
            } else {
                None
            },
        }
    }

    /// The queue without the intent that runs next.
    pub open spec fn without_next(self) -> QueueContent {
        match self.pending {
            Some(_) => QueueContent { pending: None, ..self },
            None => if self.queued.len() > 0 {
                QueueContent { queued: self.queued.drop_first(), ..self }
            } else {
                self
            },
        }
    }

    /// The queue after an intent was put off: it goes behind the queued ones, and
    /// the first of those comes forward.
    pub open spec fn deferred(self, intent: IntentContent) -> QueueContent {
        if self.queued.len() > 0 {
            QueueContent {
                pending: Some(self.queued[0]),
                queued: self.queued.drop_first().push(intent),
                ..self
            }
        } else {
            QueueContent { pending: Some(intent), ..self }
        }
    }

    pub open spec fn has_pending(self) -> bool {
        self.pending is Some || self.active is Some || self.queued.len() > 0
    }
}

proof fn lemma_queued_remove_first(before: Vec<PendingEpochBackfill>, after: Vec<PendingEpochBackfill>)
    requires
        before@.len() > 0,
        after@ == before@.remove(0),
    ensures
        after.deep_view() == before.deep_view().drop_first(),
        before.deep_view()[0] == before@[0].deep_view(),
{
    assert(after.deep_view() =~= before.deep_view().drop_first());
}

impl EpochBackfillQueue {
    pub fn new() -> (queue: Self)
        ensures
            queue.deep_view() == (QueueContent {
                pending: None,
                active: None,
                queued: Seq::empty(),
                retry_not_before_ms: None,
                journal_dirty: false,
            }),
    {
        let queue = EpochBackfillQueue {
            pending: None,
            active: None,
            queued: Vec::new(),
            retry_not_before_ms: None,
            journal_dirty: false,
        };
        assert(queue.deep_view().queued =~= Seq::<IntentContent>::empty());
        queue
    }

    /// Whether a replay is armed.
    pub fn has_pending_epoch_backfill(&self) -> (pending: bool)
        ensures
            pending == self.deep_view().has_pending(),
    {
        self.pending.is_some() || self.active.is_some() || self.queued.len() > 0
    }

    fn pop_queued(&mut self) -> (first: Option<PendingEpochBackfill>)
        ensures
            match first {
                Some(intent) => old(self).deep_view().queued.len() > 0 && intent.deep_view()
                    == old(self).deep_view().queued[0] && final(self).deep_view()
                    == (QueueContent {
                    queued: old(self).deep_view().queued.drop_first(),
                    ..old(self).deep_view()
                }),
                None => old(self).deep_view().queued.len() == 0 && *final(self) == *old(self),
            },
    {
        if self.queued.len() == 0 {
            return None;
        }
        let ghost before = self.queued;
        let intent = self.queued.remove(0);
        proof {
            lemma_queued_remove_first(before, self.queued);
        }
        Some(intent)
    }

    fn push_queued(&mut self, intent: PendingEpochBackfill)
        ensures
            final(self).deep_view() == (QueueContent {
                queued: old(self).deep_view().queued.push(intent.deep_view()),
                ..old(self).deep_view()
            }),
    {
        let ghost before = self.queued.deep_view();
        let ghost added = intent.deep_view();
        self.queued.push(intent);
        assert(self.queued.deep_view() =~= before.push(added));
    }

    /// Takes the intent that runs next.
    pub fn take_next_pending_epoch_backfill(&mut self) -> (taken: Option<PendingEpochBackfill>)
        ensures
            match taken {
                Some(intent) => old(self).deep_view().next() == Some(intent.deep_view()),
                None => old(self).deep_view().next() is None,
            },
            final(self).deep_view() == old(self).deep_view().without_next(),
    {
        match self.pending.take() {
            Some(intent) => Some(intent),
            None => self.pop_queued(),
        }
    }

    /// Puts a failed intent back.
    pub fn requeue_failed_epoch_backfill_intent(&mut self, failed: PendingEpochBackfill)
        ensures
            final(self).deep_view() == old(self).deep_view().requeued(failed.deep_view()),
    {
        if self.pending.is_none() {
            self.pending = Some(failed);
        } else {
            self.push_queued(failed);
        }
    }

    /// Puts an intent off that cannot run yet, and lets the next one come forward.
    pub fn restore_deferred_epoch_backfill(&mut self, deferred: PendingEpochBackfill)
        ensures
            final(self).deep_view() == old(self).deep_view().deferred(deferred.deep_view()),
    {
        match self.pop_queued() {
            Some(next) => {
                self.push_queued(deferred);
                self.pending = Some(next);
            },
            None => {
                self.pending = Some(deferred);
            },
        }
    }

    /// Puts back a replay that was interrupted. Returns whether the journal must
    /// be written.
    pub fn recover_active_epoch_backfill_after_cancellation(&mut self) -> (changed: bool)
        ensures
            final(self).deep_view() == old(self).deep_view().recovered(),
            changed == (old(self).deep_view().active is Some),
    {
        match self.active.take() {
            None => false,
            Some(interrupted) => {
                self.requeue_failed_epoch_backfill_intent(interrupted);
                true
            },
        }
    }

    /// Whether a seam must leave the intents alone for now. Explicit catch-up is
    /// never paced.
    pub fn epoch_backfill_retry_is_paced(&self, seam: EpochBackfillExecutionSeam, now_ms: u64)
        -> (paced: bool)
        ensures
            paced == (!(seam is ExplicitCatchUp) && (
            self.deep_view().retry_not_before_ms matches Some(not_before) && now_ms < not_before)),
    {
        match seam {
            EpochBackfillExecutionSeam::ExplicitCatchUp => false,
            _ => match self.retry_not_before_ms {
                Some(not_before) => now_ms < not_before,
                None => false,
            },
        }
    }

    /// Arms a replay for a group. Returns the attempt under which it is armed and
    /// whether this is news: the group was not armed at this epoch.
    pub fn apply_backfill_decision(
        &mut self,
        group_id: &GroupId,
        stalled_epoch: u64,
        decision: BackfillDecision,
        fresh_attempt_id: String,
    ) -> (armed: Option<(String, bool)>)
        ensures
            decision is Skip ==> armed is None && final(self).deep_view() == old(self).deep_view(),
            !(decision is Skip) ==> {
                let before = match old(self).deep_view().pending {
                    Some(intent) => intent,
                    None => IntentContent::fresh(fresh_attempt_id@),
                };
                &&& armed matches Some((attempt, news)) && attempt@ == before.attempt_id && news
                    == (before.stalled_epoch(group_id.deep_view()) != Some(stalled_epoch))
                &&& final(self).deep_view() == (QueueContent {
                    pending: Some(before.armed(group_id.deep_view(), stalled_epoch)),
                    ..old(self).deep_view()
                })
            },
    {
        if !decision.arms_backfill() {
            return None;
        }
        let mut pending = match self.pending.take() {
            Some(intent) => intent,
            None => PendingEpochBackfill::new(fresh_attempt_id),
        };
        let ghost before = pending.deep_view();
        let news = match pending.groups.get(group_id) {
            Some(epoch) => *epoch != stalled_epoch,
            None => true,
        };
        let _ = pending.groups.insert(group_id.clone(), stalled_epoch);
        assert(pending.deep_view() == before.armed(group_id.deep_view(), stalled_epoch));
        let attempt = pending.attempt_id.clone();
        self.pending = Some(pending);
        Some((attempt, news))
    }
}

/// A replay in flight.
#[derive(Debug)]
pub struct EpochBackfillExecution {
    pub pending: PendingEpochBackfill,
    pub epochs_before: KeyMap<GroupId, u64>,
    pub retry_ordinal: u64,
    pub eose_unconfirmed_ordinal: u64,
    pub no_progress_ordinal: u64,
    pub started_ms: u64,
}

/// What the start of a replay led to.
#[derive(Debug)]
pub enum EpochBackfillBegin {
    NothingPending,
    /// Some group's epoch is unknown. The deferral is audited unless the same one
    /// was audited last.
    Deferred { audit: bool, retry_ordinal: u64, attempt_id: String },
    Started(EpochBackfillExecution),
}

/// The epochs that the runtime knows of an intent's groups.
pub fn capture_pending_group_epochs(
    pending: &PendingEpochBackfill,
    observed: &KeyMap<GroupId, u64>,
) -> (captured: KeyMap<GroupId, u64>)
    ensures
        captured.sequence() == kept_keys(pending.deep_view().groups, observed.sequence()),
        forall|group: Seq<u8>| #[trigger]
            captured.lookup(group) == (if pending.deep_view().groups.contains(group) {
                observed.lookup(group)
            } else {
                None
            }),
{
    let mut captured: KeyMap<GroupId, u64> = KeyMap::new();
    let count: usize = pending.groups.len();
    let ghost keys = pending.groups.sequence();
    let ghost values = pending.groups.value_sequence();
    let mut i: usize = 0;
    assert(keys.take(0) =~= Seq::<Seq<u8>>::empty());
    while i < count
        invariant
            i <= count,
            count == keys.len(),
            count == values.len(),
            keys == pending.groups.sequence(),
            values == pending.groups.value_sequence(),
            keys.no_duplicates(),
            captured.sequence() == kept_keys(keys.take(i as int), observed.sequence()),
            forall|group: Seq<u8>| #[trigger]
                captured.lookup(group) == (if keys.take(i as int).contains(group) {
                    observed.lookup(group)
                } else {
                    None
                }),
        decreases count - i,
    {
        let ghost before = captured;
        let ghost done = keys.take(i as int);
        let ghost key = keys[i as int];
        assert(keys.take(i + 1).drop_last() =~= done);
        assert(keys.take(i + 1) =~= done.push(key));
        proof {
            lemma_kept(done, values.take(i as int), observed.sequence());
            assert(!done.contains(key)) by {
                if done.contains(key) {
                    let j = choose|j: int| 0 <= j < done.len() && done[j] == key;
                    assert(keys[j] == keys[i as int]);
                }
            }
        }
        match observed.get(pending.groups.key_at(i)) {
            Some(epoch) => {
                let _ = captured.insert(pending.groups.key_at(i).clone(), *epoch);
            },
            None => {},
        }
        assert forall|group: Seq<u8>| #[trigger]
            captured.lookup(group) == (if keys.take(i + 1).contains(group) {
                observed.lookup(group)
            } else {
                None
            }) by {
            crate::order::lemma_push_contains(done, key, group);
            assert(before.lookup(group) == (if done.contains(group) {
                observed.lookup(group)
            } else {
                None
            }));
        }
        i += 1;
    }
    assert(keys.take(count as int) =~= keys);
    captured
}

/// Whether a snapshot lists exactly the groups of an intent, ascending, each with
/// the epoch that was seen of it.
pub open spec fn snapshot_of(
    snapshot: SnapshotContent,
    reason: EpochBackfillDeferredReason,
    retry_ordinal: u64,
    groups: Seq<Seq<u8>>,
    observed: KeyMap<GroupId, u64>,
) -> bool {
    &&& snapshot.reason == reason
    &&& snapshot.retry_ordinal == retry_ordinal
    &&& snapshot.group_epochs.len() == groups.len()
    &&& forall|i: int, j: int|
        0 <= i < j < groups.len() ==> bytes_lt(
            #[trigger] snapshot.group_epochs[i].0,
            #[trigger] snapshot.group_epochs[j].0,
        )
    &&& forall|group: Seq<u8>, epoch: Option<u64>|
        #![trigger snapshot.group_epochs.contains((group, epoch))]
        snapshot.group_epochs.contains((group, epoch)) <==> groups.contains(group) && epoch
            == observed.lookup(group)
}

/// The snapshot of a deferral.
pub fn epoch_backfill_deferred_snapshot(
    reason: EpochBackfillDeferredReason,
    retry_ordinal: u64,
    pending: &PendingEpochBackfill,
    observed: &KeyMap<GroupId, u64>,
) -> (snapshot: EpochBackfillDeferredSnapshot)
    ensures
        snapshot_of(
            snapshot.deep_view(),
            reason,
            retry_ordinal,
            pending.deep_view().groups,
            *observed,
        ),
{
    let mut list: Vec<DeferredGroupEpoch> = Vec::new();
    let count: usize = pending.groups.len();
    let ghost keys = pending.groups.sequence();
    let mut i: usize = 0;
    while i < count
        invariant
            i <= count,
            count == keys.len(),
            keys == pending.groups.sequence(),
            list@.len() == i,
            forall|j: int|
                0 <= j < i ==> #[trigger] list@[j].deep_view() == (
                    keys[j],
                    observed.lookup(keys[j]),
                ),
        decreases count - i,
    {
        let observed_epoch = match observed.get(pending.groups.key_at(i)) {
            Some(epoch) => Some(*epoch),
            None => None,
        };
        list.push(
            DeferredGroupEpoch { group_id: pending.groups.key_at(i).clone(), observed_epoch },
        );
        i += 1;
    }
    let ghost unsorted = list@;
    let group_epochs = sort_stable(list);
    let snapshot = EpochBackfillDeferredSnapshot { reason, retry_ordinal, group_epochs };
    proof {
        let content = snapshot.deep_view();
        let sorted = group_epochs@;
        let _ = pending.groups.sequence();
        lemma_sorted_snapshot(unsorted, sorted, keys, *observed, content.group_epochs);
    }
    snapshot
}

proof fn lemma_sorted_snapshot(
    unsorted: Seq<DeferredGroupEpoch>,
    sorted: Seq<DeferredGroupEpoch>,
    keys: Seq<Seq<u8>>,
    observed: KeyMap<GroupId, u64>,
    content: Seq<(Seq<u8>, Option<u64>)>,
)
    requires
        keys.no_duplicates(),
        unsorted.len() == keys.len(),
        forall|j: int|
            0 <= j < keys.len() ==> #[trigger] unsorted[j].deep_view() == (
                keys[j],
                observed.lookup(keys[j]),
            ),
        is_sorted(sorted),
        sorted.to_multiset() == unsorted.to_multiset(),
        content.len() == sorted.len(),
        forall|j: int| 0 <= j < sorted.len() ==> #[trigger] content[j] == sorted[j].deep_view(),
    ensures
        content.len() == keys.len(),
        forall|i: int, j: int|
            0 <= i < j < keys.len() ==> bytes_lt(#[trigger] content[i].0, #[trigger] content[j].0),
        forall|group: Seq<u8>, epoch: Option<u64>|
            #![trigger content.contains((group, epoch))]
            content.contains((group, epoch)) <==> keys.contains(group) && epoch
                == observed.lookup(group),
{
    broadcast use vstd::seq_lib::group_to_multiset_ensures;

    lemma_same_elements(sorted, unsorted);
    assert(unsorted.no_duplicates()) by {
        assert forall|i: int, j: int|
            0 <= i < unsorted.len() && 0 <= j < unsorted.len() && i != j implies unsorted[i]
            != unsorted[j] by {
            assert(unsorted[i].deep_view().0 == keys[i]);
            assert(unsorted[j].deep_view().0 == keys[j]);
        }
    }
    unsorted.lemma_multiset_has_no_duplicates();
    sorted.lemma_multiset_has_no_duplicates_conv();
    assert forall|i: int, j: int| 0 <= i < j < keys.len() implies bytes_lt(
        #[trigger] content[i].0,
        #[trigger] content[j].0,
    ) by {
        assert(!sorted[j].before(&sorted[i]));
        assert(content[i] == sorted[i].deep_view());
        assert(content[j] == sorted[j].deep_view());
        lemma_bytes_lt_total(content[i].0, content[j].0);
        if content[i].0 == content[j].0 {
            assert(sorted.contains(sorted[i]) && sorted.contains(sorted[j]));
            let a = choose|a: int| 0 <= a < unsorted.len() && unsorted[a] == sorted[i];
            let b = choose|b: int| 0 <= b < unsorted.len() && unsorted[b] == sorted[j];
            assert(unsorted[a].deep_view().0 == keys[a]);
            assert(unsorted[b].deep_view().0 == keys[b]);
            assert(a == b);
        }
    }
    assert forall|group: Seq<u8>, epoch: Option<u64>|
        #![trigger content.contains((group, epoch))]
        content.contains((group, epoch)) <==> keys.contains(group) && epoch == observed.lookup(
            group,
        ) by {
        if content.contains((group, epoch)) {
            let i = choose|i: int| 0 <= i < content.len() && content[i] == (group, epoch);
            assert(sorted.contains(sorted[i]));
            let a = choose|a: int| 0 <= a < unsorted.len() && unsorted[a] == sorted[i];
            assert(unsorted[a].deep_view() == (keys[a], observed.lookup(keys[a])));
            assert(keys.contains(keys[a]));
        }
        if keys.contains(group) && epoch == observed.lookup(group) {
            let a = choose|a: int| 0 <= a < keys.len() && keys[a] == group;
            assert(unsorted[a].deep_view() == (keys[a], observed.lookup(keys[a])));
            assert(unsorted.contains(unsorted[a]));
            let i = choose|i: int| 0 <= i < sorted.len() && sorted[i] == unsorted[a];
            assert(content[i] == (group, epoch));
        }
    }
}

/// Whether the runtime knows the epoch of every group of an intent.
pub open spec fn all_observed(groups: Seq<Seq<u8>>, observed: KeyMap<GroupId, u64>) -> bool {
    forall|group: Seq<u8>| groups.contains(group) ==> #[trigger] observed.spec_contains(group)
}

/// The intent as it runs: one attempt more, no deferral.
pub open spec fn started_intent(intent: IntentContent) -> IntentContent {
    IntentContent {
        execution_attempts: if intent.execution_attempts == u32::MAX {
            u32::MAX
        } else {
            (intent.execution_attempts + 1) as u32
        },
        last_deferred_audit: None,
        ..intent
    }
}

/// Every group is known exactly when none is lost by keeping the known ones.
pub proof fn lemma_all_kept(keys: Seq<Seq<u8>>, values: Seq<u64>, observed: KeyMap<GroupId, u64>)
    requires
        keys.no_duplicates(),
        keys.len() == values.len(),
    ensures
        kept_keys(keys, observed.sequence()).len() == keys.len() <==> all_observed(keys, observed),
{
    lemma_kept(keys, values, observed.sequence());
    let kept = kept_keys(keys, observed.sequence());
    if kept.len() == keys.len() {
        assert forall|group: Seq<u8>| keys.contains(group) implies #[trigger] observed.spec_contains(
            group,
        ) by {
            assert(kept.contains(group));
        }
    }
    if all_observed(keys, observed) {
        assert forall|group: Seq<u8>| #![auto] keys.contains(group) implies observed.sequence().contains(
            group,
        ) by {
            assert(observed.spec_contains(group));
        }
        lemma_kept_all(keys, observed.sequence());
    }
}

proof fn lemma_kept_all(keys: Seq<Seq<u8>>, kept: Seq<Seq<u8>>)
    requires
        forall|group: Seq<u8>| #![auto] keys.contains(group) ==> kept.contains(group),
    ensures
        kept_keys(keys, kept) == keys,
    decreases keys.len(),
{
    if keys.len() > 0 {
        assert(keys.contains(keys.last()));
        assert forall|group: Seq<u8>| #![auto] keys.drop_last().contains(group) implies kept.contains(
            group,
        ) by {
            let i = choose|i: int| 0 <= i < keys.drop_last().len() && keys.drop_last()[i] == group;
            assert(keys[i] == group);
            assert(keys.contains(group));
        }
        lemma_kept_all(keys.drop_last(), kept);
        assert(keys =~= keys.drop_last().push(keys.last()));
    }
}

/// Whether a start was put off: the intent went behind the others with a snapshot
/// of what was seen, to be audited unless the same was audited last.
pub open spec fn begins_deferred(
    begin: EpochBackfillBegin,
    ready: QueueContent,
    intent: IntentContent,
    observed: KeyMap<GroupId, u64>,
    snapshot: SnapshotContent,
    after: QueueContent,
) -> bool {
    match begin {
        EpochBackfillBegin::Deferred { audit, retry_ordinal, attempt_id } => {
            &&& retry_ordinal == intent.execution_attempts
            &&& attempt_id@ == intent.attempt_id
            &&& snapshot_of(
                snapshot,
                EpochBackfillDeferredReason::GroupEpochUnavailable,
                retry_ordinal,
                intent.groups,
                observed,
            )
            &&& audit == (intent.last_deferred_audit != Some(snapshot))
            &&& after == ready.without_next().deferred(
                IntentContent { last_deferred_audit: Some(snapshot), ..intent },
            )
        },
        _ => false,
    }
}

/// How the next intent of a queue starts: it runs only where the epoch of every group
/// is known, and is put off otherwise.
pub open spec fn begins_next(
    before: QueueContent,
    after: QueueContent,
    observed: KeyMap<GroupId, u64>,
    now_ms: u64,
    begin: EpochBackfillBegin,
) -> bool {
    let ready = before.recovered();
    match ready.next() {
        None => begin is NothingPending && after == ready,
        Some(intent) => if all_observed(intent.groups, observed) {
            &&& begin matches EpochBackfillBegin::Started(execution)
            &&& execution.pending.deep_view() == started_intent(intent)
            &&& execution.retry_ordinal == intent.execution_attempts
            &&& execution.eose_unconfirmed_ordinal == intent.eose_unconfirmed_attempts
            &&& execution.no_progress_ordinal == intent.no_progress_attempts
            &&& execution.started_ms == now_ms
            &&& forall|group: Seq<u8>|
                #[trigger] execution.epochs_before.lookup(group) == (
                if intent.groups.contains(group) {
                    observed.lookup(group)
                } else {
                    None
                })
            &&& after == (QueueContent {
                active: Some(started_intent(intent)),
                ..ready.without_next()
            })
        } else {
            exists|snapshot: SnapshotContent|
                #[trigger] begins_deferred(
                    begin,
                    ready,
                    intent,
                    observed,
                    snapshot,
                    after,
                )
        },
    }
}

impl EpochBackfillQueue {
    /// Starts the next intent. It runs only where the runtime knows the epoch of
    /// every group; otherwise it is put off.
    pub fn begin_epoch_backfill_execution(
        &mut self,
        observed: &KeyMap<GroupId, u64>,
        now_ms: u64,
    ) -> (begin: EpochBackfillBegin)
        ensures
            begins_next(old(self).deep_view(), final(self).deep_view(), *observed, now_ms, begin),
    {
        let _ = self.recover_active_epoch_backfill_after_cancellation();
        let ghost ready = self.deep_view();
        let mut pending = match self.take_next_pending_epoch_backfill() {
            Some(pending) => pending,
            None => {
                return EpochBackfillBegin::NothingPending;
            },
        };
        let ghost intent = pending.deep_view();
        let retry_ordinal: u64 = pending.execution_attempts as u64;
        let eose_unconfirmed_ordinal: u64 = pending.eose_unconfirmed_attempts as u64;
        let no_progress_ordinal: u64 = pending.no_progress_attempts as u64;
        let epochs_before = capture_pending_group_epochs(&pending, observed);
        let known: usize = epochs_before.len();
        let wanted: usize = pending.groups.len();
        proof {
            lemma_all_kept(intent.groups, intent.epochs, *observed);
        }
        if known != wanted {
            let snapshot = epoch_backfill_deferred_snapshot(
                EpochBackfillDeferredReason::GroupEpochUnavailable,
                retry_ordinal,
                &pending,
                observed,
            );
            let audit = match &pending.last_deferred_audit {
                Some(last) => !last.same(&snapshot),
                None => true,
            };
            let ghost content = snapshot.deep_view();
            if audit {
                pending.last_deferred_audit = Some(snapshot);
            }
            assert(pending.deep_view() == (IntentContent {
                last_deferred_audit: Some(content),
                ..intent
            }));
            let attempt_id = pending.attempt_id.clone();
            self.restore_deferred_epoch_backfill(pending);
            let begin = EpochBackfillBegin::Deferred { audit, retry_ordinal, attempt_id };
            assert(begins_deferred(begin, ready, intent, *observed, content, self.deep_view()));
            return begin;
        }
        pending.last_deferred_audit = None;
        pending.execution_attempts = if pending.execution_attempts == u32::MAX {
            u32::MAX
        } else {
            pending.execution_attempts + 1
        };
        self.active = Some(pending.duplicate());
        EpochBackfillBegin::Started(
            EpochBackfillExecution {
                pending,
                epochs_before,
                retry_ordinal,
                eose_unconfirmed_ordinal,
                no_progress_ordinal,
                started_ms: now_ms,
            },
        )
    }

    /// Takes a start back whose journal could not be written: the intent is first
    /// again.
    pub fn abandon_begin(&mut self, pending: PendingEpochBackfill)
        ensures
            final(self).deep_view() == (match old(self).deep_view().pending {
                None => QueueContent {
                    active: None,
                    pending: Some(pending.deep_view()),
                    ..old(self).deep_view()
                },
                Some(_) => QueueContent {
                    active: None,
                    queued: seq![pending.deep_view()] + old(self).deep_view().queued,
                    ..old(self).deep_view()
                },
            }),
    {
        self.active = None;
        if self.pending.is_none() {
            self.pending = Some(pending);
        } else {
            let ghost before = self.queued.deep_view();
            let ghost added = pending.deep_view();
            self.queued.insert(0, pending);
            assert(self.queued.deep_view() =~= seq![added] + before);
        }
    }

    /// A copy with the same content, to fall back to.
    pub fn duplicate(&self) -> (copy: Self)
        ensures
            copy.deep_view() == self.deep_view(),
    {
        let mut queued: Vec<PendingEpochBackfill> = Vec::new();
        let mut i: usize = 0;
        while i < self.queued.len()
            invariant
                i <= self.queued@.len(),
                queued@.len() == i,
                forall|j: int|
                    0 <= j < i ==> #[trigger] queued@[j].deep_view()
                        == self.queued@[j].deep_view(),
            decreases self.queued.len() - i,
        {
            queued.push(self.queued[i].duplicate());
            i += 1;
        }
        let copy = EpochBackfillQueue {
            pending: copy_optional_intent(&self.pending),
            active: copy_optional_intent(&self.active),
            queued,
            retry_not_before_ms: self.retry_not_before_ms,
            journal_dirty: self.journal_dirty,
        };
        assert(copy.deep_view().queued =~= self.deep_view().queued);
        copy
    }
}

fn copy_optional_intent(intent: &Option<PendingEpochBackfill>) -> (copy: Option<
    PendingEpochBackfill,
>)
    ensures
        copy.deep_view() == intent.deep_view(),
{
    match intent {
        Some(held) => Some(held.duplicate()),
        None => None,
    }
}

proof fn lemma_multiset_of_optional(intent: Option<IntentContent>)
    ensures
        optional_intent(intent).to_multiset() == (match intent {
            Some(held) => vstd::multiset::Multiset::<IntentContent>::empty().insert(held),
            None => vstd::multiset::Multiset::<IntentContent>::empty(),
        }),
{
    broadcast use vstd::seq_lib::group_to_multiset_ensures;

    match intent {
        Some(held) => {
            assert(seq![held] =~= Seq::<IntentContent>::empty().push(held));
        },
        None => {},
    }
}

/// The intents of a queue by count.
pub open spec fn intent_bag(queue: QueueContent) -> vstd::multiset::Multiset<IntentContent> {
    queue.intents().to_multiset()
}

proof fn lemma_intent_bag(queue: QueueContent)
    ensures
        intent_bag(queue) =~= optional_intent(queue.pending).to_multiset().add(
            optional_intent(queue.active).to_multiset(),
        ).add(queue.queued.to_multiset()),
{
    vstd::seq_lib::lemma_multiset_commutative(
        optional_intent(queue.pending) + optional_intent(queue.active),
        queue.queued,
    );
    vstd::seq_lib::lemma_multiset_commutative(
        optional_intent(queue.pending),
        optional_intent(queue.active),
    );
}

/// Putting an interrupted replay back loses and doubles no intent.
pub proof fn law_recovery_keeps_every_intent(queue: QueueContent)
    ensures
        intent_bag(queue.recovered()) == intent_bag(queue),
        queue.recovered().active is None,
{
    broadcast use vstd::seq_lib::group_to_multiset_ensures;

    lemma_intent_bag(queue);
    lemma_intent_bag(queue.recovered());
    lemma_multiset_of_optional(queue.active);
    lemma_multiset_of_optional(queue.pending);
    lemma_multiset_of_optional(queue.recovered().pending);
    lemma_multiset_of_optional(queue.recovered().active);
    assert(intent_bag(queue.recovered()) =~= intent_bag(queue));
}

/// An intent that is taken and put off is still there, behind the others.
pub proof fn law_deferral_keeps_every_intent(queue: QueueContent)
    requires
        queue.next() is Some,
    ensures
        intent_bag(queue.without_next().deferred(queue.next()->Some_0)) == intent_bag(queue),
{
    broadcast use vstd::seq_lib::group_to_multiset_ensures;

    let intent = queue.next()->Some_0;
    let rest = queue.without_next();
    let out = rest.deferred(intent);
    lemma_intent_bag(queue);
    lemma_intent_bag(out);
    lemma_multiset_of_optional(queue.pending);
    lemma_multiset_of_optional(out.pending);
    lemma_drop_first_bag(queue.queued);
    lemma_drop_first_bag(rest.queued);
    assert(intent_bag(out) =~= intent_bag(queue));
}

proof fn lemma_drop_first_bag(queued: Seq<IntentContent>)
    ensures
        queued.len() > 0 ==> queued.to_multiset() =~= queued.drop_first().to_multiset().insert(
            queued[0],
        ),
{
    broadcast use vstd::seq_lib::group_to_multiset_ensures;

    if queued.len() > 0 {
        assert(queued =~= seq![queued[0]] + queued.drop_first());
        vstd::seq_lib::lemma_multiset_commutative(seq![queued[0]], queued.drop_first());
        assert(seq![queued[0]] =~= Seq::<IntentContent>::empty().push(queued[0]));
    }
}

/// A start that is interrupted and recovered leaves the same intents, the one
/// that ran with one attempt more.
pub proof fn law_interrupted_start_keeps_every_intent(queue: QueueContent)
    requires
        queue.active is None,
        queue.next() is Some,
    ensures
        ({
            let intent = queue.next()->Some_0;
            let started = QueueContent {
                active: Some(started_intent(intent)),
                ..queue.without_next()
            };
            intent_bag(started.recovered()) == intent_bag(queue).remove(intent).insert(
                started_intent(intent),
            )
        }),
{
    broadcast use vstd::seq_lib::group_to_multiset_ensures;

    let intent = queue.next()->Some_0;
    let started = QueueContent { active: Some(started_intent(intent)), ..queue.without_next() };
    law_recovery_keeps_every_intent(started);
    lemma_intent_bag(queue);
    lemma_intent_bag(started);
    lemma_multiset_of_optional(queue.pending);
    lemma_multiset_of_optional(queue.active);
    lemma_multiset_of_optional(started.pending);
    lemma_multiset_of_optional(started.active);
    lemma_drop_first_bag(queue.queued);
    assert(intent_bag(started.recovered()) =~= intent_bag(queue).remove(intent).insert(
        started_intent(intent),
    ));
}

} // verus!
