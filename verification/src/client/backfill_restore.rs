//! Pruning replay intents to live groups, and restoring them after a restart.

use crate::client::backfill_intent::{
    law_stored_intent_restores, persists, restored_intent, storable, stored_intent_fault,
    IntentContent, PendingEpochBackfill, PersistedContent, PersistedEpochBackfillIntent,
};
use crate::client::epoch_backfill::{
    epoch_backfill_retry_deadline_unix_ms, left_until, restore_epoch_backfill_retry_deadline,
    restored_wait, unix_ms, EpochBackfillQueue, QueueContent,
    EPOCH_BACKFILL_INTENT_JOURNAL_VERSION,
};
use crate::client::drain::saturated;
use crate::collections::{kept_keys, lemma_kept, KeyMap, KeySet};
use crate::error::AppError;
use crate::ids::GroupId;
use crate::order::{extend_unique, lemma_push_contains};
use vstd::prelude::*;

verus! {

/// Whether keeping only live groups changes an intent or leaves it without any.
pub open spec fn touched(intent: IntentContent, live: Seq<Seq<u8>>) -> bool {
    let left = intent.restricted(live).groups.len();
    left != intent.groups.len() || left == 0
}

/// What is left of an intent, if it still has a group.
pub open spec fn survivor(intent: Option<IntentContent>, live: Seq<Seq<u8>>) -> Option<
    IntentContent,
> {
    match intent {
        Some(held) => if held.restricted(live).groups.len() == 0 {
            None
        } else {
            Some(held.restricted(live))
        },
        None => None,
    }
}

/// What is left of queued intents, in order.
pub open spec fn survivors(queued: Seq<IntentContent>, live: Seq<Seq<u8>>) -> Seq<IntentContent>
    decreases queued.len(),
{
    if queued.len() == 0 {
        queued
    } else {
        let rest = survivors(queued.drop_last(), live);
        match survivor(Some(queued.last()), live) {
            Some(left) => rest.push(left),
            None => rest,
        }
    }
}

/// The queue with live groups only. Where nothing is pending any more, the first
/// queued intent comes forward.
pub open spec fn live_queue(queue: QueueContent, live: Seq<Seq<u8>>) -> QueueContent {
    let pending = survivor(queue.pending, live);
    let queued = survivors(queue.queued, live);
    let promotes = pending is None && queued.len() > 0;
    QueueContent {
        pending: if promotes {
            Some(queued[0])
        } else {
            pending
        },
        active: survivor(queue.active, live),
        queued: if promotes {
            queued.drop_first()
        } else {
            queued
        },
        ..queue
    }
}

/// Whether keeping only live groups changes the queue.
pub open spec fn prunes(queue: QueueContent, live: Seq<Seq<u8>>) -> bool {
    ||| queue.pending matches Some(intent) && touched(intent, live)
    ||| queue.active matches Some(intent) && touched(intent, live)
    ||| exists|i: int| 0 <= i < queue.queued.len() && #[trigger] touched(queue.queued[i], live)
    ||| survivor(queue.pending, live) is None && survivors(queue.queued, live).len() > 0
}

fn retain_optional(intent: Option<PendingEpochBackfill>, live: &KeySet<GroupId>) -> (kept: (
    Option<PendingEpochBackfill>,
    bool,
))
    ensures
        kept.0.deep_view() == survivor(intent.deep_view(), live.sequence()),
        kept.1 == (intent.deep_view() matches Some(held) && touched(held, live.sequence())),
{
    match intent {
        Some(held) => {
            let mut held = held;
            let ghost before = held.deep_view();
            let changed = held.groups.retain(live);
            assert(held.deep_view() == before.restricted(live.sequence()));
            if held.groups.is_empty() {
                (None, true)
            } else {
                (Some(held), changed)
            }
        },
        None => (None, false),
    }
}

impl EpochBackfillQueue {
    /// Keeps the live groups of every intent and drops intents without groups.
    /// Returns whether anything changed.
    pub fn retain_live_epoch_backfill_groups(&mut self, live: &KeySet<GroupId>) -> (pruned: bool)
        ensures
            final(self).deep_view() == live_queue(old(self).deep_view(), live.sequence()),
            pruned == prunes(old(self).deep_view(), live.sequence()),
    {
        let ghost start = self.deep_view();
        let mut pruned = false;
        let (pending, pending_changed) = retain_optional(self.pending.take(), live);
        let (active, active_changed) = retain_optional(self.active.take(), live);
        let mut source: Vec<PendingEpochBackfill> = Vec::new();
        core::mem::swap(&mut source, &mut self.queued);
        let mut queued: Vec<PendingEpochBackfill> = Vec::new();
        let mut queued_changed = false;
        let ghost all = source.deep_view();
        assert(all.take(0) =~= Seq::<IntentContent>::empty());
        assert(all.skip(0) =~= all);
        assert(queued.deep_view() =~= Seq::<IntentContent>::empty());
        while source.len() > 0
            invariant
                source@.len() <= all.len(),
                source.deep_view() == all.skip(all.len() - source@.len()),
                queued.deep_view() == survivors(
                    all.take(all.len() - source@.len()),
                    live.sequence(),
                ),
                queued_changed == exists|i: int|
                    0 <= i < all.len() - source@.len() && #[trigger] touched(
                        all[i],
                        live.sequence(),
                    ),
            decreases source.len(),
        {
            let ghost done = all.len() - source@.len();
            let ghost before_source = source;
            let ghost before_queued = queued.deep_view();
            let intent = source.remove(0);
            assert(intent.deep_view() == all[done]) by {
                assert(before_source.deep_view()[0] == all.skip(done)[0]);
            }
            assert(source.deep_view() =~= all.skip(done + 1)) by {
                assert forall|i: int| 0 <= i < source@.len() implies source.deep_view()[i]
                    == all.skip(done + 1)[i] by {
                    assert(source@[i] == before_source@[i + 1]);
                    assert(before_source.deep_view()[i + 1] == all.skip(done)[i + 1]);
                }
            }
            assert(all.take(done + 1).drop_last() =~= all.take(done));
            let (kept, changed) = retain_optional(Some(intent), live);
            match kept {
                Some(left) => {
                    let ghost added = left.deep_view();
                    queued.push(left);
                    assert(queued.deep_view() =~= before_queued.push(added));
                },
                None => {},
            }
            if changed {
                assert(touched(all[done], live.sequence()));
                queued_changed = true;
            }
        }
        assert(all.take(all.len() as int) =~= all);
        self.pending = pending;
        self.active = active;
        self.queued = queued;
        pruned = pending_changed || active_changed || queued_changed;
        if self.pending.is_none() && self.queued.len() > 0 {
            let ghost before = self.queued;
            let next = self.queued.remove(0);
            assert(self.queued.deep_view() =~= before.deep_view().drop_first());
            self.pending = Some(next);
            pruned = true;
        }
        pruned
    }
}

/// Keeping live groups leaves no dead group in any intent, and no intent without groups.
pub proof fn law_pruned_queue_is_live(queue: QueueContent, live: Seq<Seq<u8>>)
    requires
        forall|intent: IntentContent| #[trigger]
            queue.intents().contains(intent) ==> intent.groups.no_duplicates()
                && intent.groups.len() == intent.epochs.len(),
    ensures
        forall|intent: IntentContent| #[trigger]
            live_queue(queue, live).intents().contains(intent) ==> intent.groups.len() > 0 && (
            forall|group: Seq<u8>| #[trigger]
                intent.groups.contains(group) ==> live.contains(group)),
{
    let after = live_queue(queue, live);
    assert forall|intent: IntentContent| #[trigger] after.intents().contains(intent) implies intent.groups.len()
        > 0 && (forall|group: Seq<u8>| #[trigger] intent.groups.contains(group) ==> live.contains(group)) by {
        let i = choose|i: int| 0 <= i < after.intents().len() && after.intents()[i] == intent;
        lemma_survivors(queue.queued, live);
        let source: IntentContent = choose|source: IntentContent|
            #![trigger queue.intents().contains(source)]
            queue.intents().contains(source) && survivor(Some(source), live) == Some(intent);
        assert(exists|source: IntentContent|
            #![trigger queue.intents().contains(source)]
            queue.intents().contains(source) && survivor(Some(source), live) == Some(intent)) by {
            lemma_survivor_source(queue, live, intent);
        }
        lemma_kept(source.groups, source.epochs, live);
    }
}

proof fn lemma_survivors(queued: Seq<IntentContent>, live: Seq<Seq<u8>>)
    ensures
        forall|intent: IntentContent| #[trigger]
            survivors(queued, live).contains(intent) ==> exists|source: IntentContent| #[trigger]
                queued.contains(source) && survivor(Some(source), live) == Some(intent),
    decreases queued.len(),
{
    if queued.len() > 0 {
        lemma_survivors(queued.drop_last(), live);
        assert forall|intent: IntentContent| #[trigger]
            survivors(queued, live).contains(intent) implies exists|source: IntentContent|
            #[trigger]
            queued.contains(source) && survivor(Some(source), live) == Some(intent) by {
            let rest = survivors(queued.drop_last(), live);
            if rest.contains(intent) {
                let source = choose|source: IntentContent| #[trigger]
                    queued.drop_last().contains(source) && survivor(Some(source), live) == Some(
                        intent,
                    );
                let i = choose|i: int|
                    0 <= i < queued.drop_last().len() && queued.drop_last()[i] == source;
                assert(queued[i] == source);
                assert(queued.contains(source));
            } else {
                match survivor(Some(queued.last()), live) {
                    Some(left) => {
                        lemma_push_contains(rest, left, intent);
                        assert(queued.contains(queued.last()));
                    },
                    None => {},
                }
            }
        }
    }
}

proof fn lemma_survivor_source(queue: QueueContent, live: Seq<Seq<u8>>, intent: IntentContent)
    requires
        live_queue(queue, live).intents().contains(intent),
    ensures
        exists|source: IntentContent|
            #![trigger queue.intents().contains(source)]
            queue.intents().contains(source) && survivor(Some(source), live) == Some(intent),
{
    let after = live_queue(queue, live);
    let kept = survivors(queue.queued, live);
    lemma_survivors(queue.queued, live);
    let i = choose|i: int| 0 <= i < after.intents().len() && after.intents()[i] == intent;
    let promotes = survivor(queue.pending, live) is None && kept.len() > 0;
    let pending_len = crate::client::epoch_backfill::optional_intent(after.pending).len();
    let active_len = crate::client::epoch_backfill::optional_intent(after.active).len();
    let all = queue.intents();
    let p = crate::client::epoch_backfill::optional_intent(queue.pending).len();
    let a = crate::client::epoch_backfill::optional_intent(queue.active).len();
    if i < pending_len {
        if promotes {
            assert(kept.contains(kept[0]));
        } else {
            assert(all[0] == queue.pending->Some_0);
            assert(all.contains(queue.pending->Some_0));
        }
    } else if i < pending_len + active_len {
        assert(all[p as int] == queue.active->Some_0);
        assert(all.contains(queue.active->Some_0));
    } else {
        let j = i - pending_len - active_len;
        if promotes {
            assert(after.queued[j] == kept[j + 1]);
            assert(kept.contains(kept[j + 1]));
        } else {
            assert(kept.contains(kept[j]));
        }
    }
    if kept.contains(intent) {
        let source = choose|source: IntentContent| #[trigger]
            queue.queued.contains(source) && survivor(Some(source), live) == Some(intent);
        let k = choose|k: int| 0 <= k < queue.queued.len() && queue.queued[k] == source;
        assert(all[p + a + k] == source);
        assert(all.contains(source));
    }
}

/// The groups of every intent, each once.
pub open spec fn queue_groups(queue: QueueContent) -> Seq<Seq<u8>> {
    all_groups(queue.intents())
}

/// The groups of a list of intents, each once, in order.
pub open spec fn all_groups(intents: Seq<IntentContent>) -> Seq<Seq<u8>>
    decreases intents.len(),
{
    if intents.len() == 0 {
        Seq::empty()
    } else {
        extend_unique(all_groups(intents.drop_last()), intents.last().groups)
    }
}

fn add_groups(known: &mut KeySet<GroupId>, groups: &KeyMap<GroupId, u64>)
    ensures
        final(known).sequence() == extend_unique(old(known).sequence(), groups.sequence()),
{
    let ghost before = known.sequence();
    let count: usize = groups.len();
    let mut i: usize = 0;
    assert(groups.sequence().take(0) =~= Seq::<Seq<u8>>::empty());
    while i < count
        invariant
            i <= count,
            count == groups.sequence().len(),
            known.sequence() == extend_unique(before, groups.sequence().take(i as int)),
        decreases count - i,
    {
        assert(groups.sequence().take(i + 1).drop_last() =~= groups.sequence().take(i as int));
        let _ = known.insert(groups.key_at(i).clone());
        i += 1;
    }
    assert(groups.sequence().take(count as int) =~= groups.sequence());
}

impl EpochBackfillQueue {
    /// Every group that some intent names.
    pub fn known_groups(&self) -> (known: KeySet<GroupId>)
        ensures
            known.sequence() == queue_groups(self.deep_view()),
    {
        let mut known: KeySet<GroupId> = KeySet::new();
        let ghost p = crate::client::epoch_backfill::optional_intent(self.deep_view().pending);
        let ghost a = crate::client::epoch_backfill::optional_intent(self.deep_view().active);
        assert(all_groups(Seq::<IntentContent>::empty()) == Seq::<Seq<u8>>::empty());
        match &self.pending {
            Some(intent) => {
                add_groups(&mut known, &intent.groups);
                assert(p.drop_last() =~= Seq::<IntentContent>::empty());
            },
            None => {},
        }
        assert(known.sequence() == all_groups(p));
        match &self.active {
            Some(intent) => {
                add_groups(&mut known, &intent.groups);
                assert((p + a).drop_last() =~= p);
            },
            None => {
                assert(p + a =~= p);
            },
        }
        assert(known.sequence() == all_groups(p + a));
        let ghost q = self.deep_view().queued;
        let mut i: usize = 0;
        assert(p + a + q.take(0) =~= p + a);
        while i < self.queued.len()
            invariant
                i <= self.queued@.len(),
                q == self.deep_view().queued,
                known.sequence() == all_groups(p + a + q.take(i as int)),
            decreases self.queued.len() - i,
        {
            assert((p + a + q.take(i + 1)).drop_last() =~= p + a + q.take(i as int));
            assert((p + a + q.take(i + 1)).last() == self.queued@[i as int].deep_view());
            add_groups(&mut known, &self.queued[i].groups);
            i += 1;
        }
        assert(q.take(q.len() as int) =~= q);
        known
    }

    /// Removes a deleted group from every intent. Returns whether the journal
    /// must be written.
    pub fn prune_deleted_epoch_backfill_group(&mut self, group_id: &GroupId) -> (pruned: bool)
        ensures
            exists|live: Seq<Seq<u8>>|
                {
                    &&& forall|group: Seq<u8>| #[trigger]
                        live.contains(group) <==> queue_groups(old(self).deep_view()).contains(
                            group,
                        ) && group != group_id.deep_view()
                    &&& final(self).deep_view() == #[trigger] live_queue(
                        old(self).deep_view(),
                        live,
                    )
                    &&& pruned == prunes(old(self).deep_view(), live)
                },
    {
        let ghost start = self.deep_view();
        let mut live = self.known_groups();
        let _ = live.remove(group_id);
        let pruned = self.retain_live_epoch_backfill_groups(&live);
        proof {
            let seq = live.sequence();
            assert forall|group: Seq<u8>| #[trigger]
                seq.contains(group) <==> queue_groups(start).contains(group) && group
                    != group_id.deep_view() by {
                assert(live.spec_contains(group) <==> seq.contains(group));
            }
        }
        pruned
    }
}

/// Whether a group still counts: it is not locally deleted, and the engine or
/// the app knows it.
pub fn epoch_backfill_group_is_live(
    group_id: &GroupId,
    locally_deleted: &KeySet<GroupId>,
    live_engine_ids: &KeySet<GroupId>,
    projected_ids: &KeySet<GroupId>,
) -> (live: bool)
    ensures
        live == counts_as_live(
            group_id.deep_view(),
            locally_deleted.sequence(),
            live_engine_ids.sequence(),
            projected_ids.sequence(),
        ),
{
    if locally_deleted.contains(group_id) {
        return false;
    }
    live_engine_ids.contains(group_id) || projected_ids.contains(group_id)
}

/// Whether a group is not locally deleted and known to the engine or the app.
pub open spec fn counts_as_live(
    group: Seq<u8>,
    locally_deleted: Seq<Seq<u8>>,
    live_engine_ids: Seq<Seq<u8>>,
    projected_ids: Seq<Seq<u8>>,
) -> bool {
    !locally_deleted.contains(group) && (live_engine_ids.contains(group) || projected_ids.contains(
        group,
    ))
}

/// The live ones among the groups that a table or the intents name.
pub fn live_backfill_groups(
    candidates: &KeySet<GroupId>,
    locally_deleted: &KeySet<GroupId>,
    live_engine_ids: &KeySet<GroupId>,
    projected_ids: &KeySet<GroupId>,
) -> (live: KeySet<GroupId>)
    ensures
        forall|group: Seq<u8>| #[trigger]
            live.spec_contains(group) <==> candidates.spec_contains(group) && counts_as_live(
                group,
                locally_deleted.sequence(),
                live_engine_ids.sequence(),
                projected_ids.sequence(),
            ),
{
    let mut live: KeySet<GroupId> = KeySet::new();
    let count: usize = candidates.len();
    let ghost all = candidates.sequence();
    let mut i: usize = 0;
    assert(all.take(0) =~= Seq::<Seq<u8>>::empty());
    while i < count
        invariant
            i <= count,
            count == all.len(),
            all == candidates.sequence(),
            forall|group: Seq<u8>| #[trigger]
                live.spec_contains(group) <==> all.take(i as int).contains(group)
                    && counts_as_live(
                    group,
                    locally_deleted.sequence(),
                    live_engine_ids.sequence(),
                    projected_ids.sequence(),
                ),
        decreases count - i,
    {
        let ghost before = live;
        let ghost key = all[i as int];
        assert(all.take(i + 1) =~= all.take(i as int).push(key));
        let id = candidates.key_at(i);
        if epoch_backfill_group_is_live(id, locally_deleted, live_engine_ids, projected_ids) {
            let _ = live.insert(id.clone());
        }
        assert forall|group: Seq<u8>| #[trigger]
            live.spec_contains(group) <==> all.take(i + 1).contains(group) && counts_as_live(
                group,
                locally_deleted.sequence(),
                live_engine_ids.sequence(),
                projected_ids.sequence(),
            ) by {
            lemma_push_contains(all.take(i as int), key, group);
            lemma_push_contains(before.sequence(), key, group);
            assert(before.spec_contains(group) <==> all.take(i as int).contains(group)
                && counts_as_live(
                group,
                locally_deleted.sequence(),
                live_engine_ids.sequence(),
                projected_ids.sequence(),
            ));
        }
        i += 1;
    }
    assert(all.take(count as int) =~= all);
    live
}

/// The pending intent after every listed group that no intent names was armed in it.
pub open spec fn armed_unknown(
    pending: Option<IntentContent>,
    attempt_id: Seq<char>,
    groups: Seq<Seq<u8>>,
    epochs: Seq<u64>,
    known: Seq<Seq<u8>>,
) -> Option<IntentContent>
    decreases groups.len(),
{
    if groups.len() == 0 {
        pending
    } else {
        let before = armed_unknown(
            pending,
            attempt_id,
            groups.drop_last(),
            epochs.drop_last(),
            known,
        );
        if known.contains(groups.last()) {
            before
        } else {
            Some(
                (match before {
                    Some(intent) => intent,
                    None => IntentContent::fresh(attempt_id),
                }).armed(groups.last(), epochs.last()),
            )
        }
    }
}

/// Whether a list names a group that is not known.
pub open spec fn names_unknown(groups: Seq<Seq<u8>>, known: Seq<Seq<u8>>) -> bool {
    exists|i: int| 0 <= i < groups.len() && !known.contains(#[trigger] groups[i])
}

/// The queue after the table of armed groups was joined with restored intents.
pub open spec fn joined_queue(
    queue: QueueContent,
    groups: Seq<Seq<u8>>,
    epochs: Seq<u64>,
    live: Seq<Seq<u8>>,
    attempt_id: Seq<char>,
) -> QueueContent {
    let kept = kept_keys(groups, live);
    let kept_epochs = crate::collections::kept_values(groups, epochs, live);
    if queue.has_pending() {
        let pruned = live_queue(queue, live);
        QueueContent {
            pending: armed_unknown(
                pruned.pending,
                attempt_id,
                kept,
                kept_epochs,
                queue_groups(pruned),
            ),
            ..pruned
        }
    } else if kept.len() == 0 {
        queue
    } else {
        QueueContent {
            pending: Some(
                IntentContent {
                    groups: kept,
                    epochs: kept_epochs,
                    ..IntentContent::fresh(attempt_id)
                },
            ),
            ..queue
        }
    }
}

impl EpochBackfillQueue {
    /// Joins the table of armed groups with the intents that the journal
    /// restored. Dead groups go; a live group that no intent names is armed
    /// again. Returns whether the journal must be written.
    pub fn restore_persisted_epoch_backfill_intents(
        &mut self,
        table: KeyMap<GroupId, u64>,
        live: &KeySet<GroupId>,
        fresh_attempt_id: String,
    ) -> (write_journal: bool)
        ensures
            final(self).deep_view() == joined_queue(
                old(self).deep_view(),
                table.sequence(),
                table.value_sequence(),
                live.sequence(),
                fresh_attempt_id@,
            ),
            write_journal == (old(self).deep_view().has_pending() && (prunes(
                old(self).deep_view(),
                live.sequence(),
            ) || names_unknown(
                kept_keys(table.sequence(), live.sequence()),
                queue_groups(live_queue(old(self).deep_view(), live.sequence())),
            ))),
    {
        let ghost start = self.deep_view();
        let mut table = table;
        let _ = table.retain(live);
        let ghost groups = table.sequence();
        let ghost epochs = table.value_sequence();
        if self.has_pending_epoch_backfill() {
            let mut write = self.retain_live_epoch_backfill_groups(live);
            let ghost pruned = self.deep_view();
            let known = self.known_groups();
            let count: usize = table.len();
            let mut i: usize = 0;
            assert(groups.take(0) =~= Seq::<Seq<u8>>::empty());
            assert(epochs.take(0) =~= Seq::<u64>::empty());
            while i < count
                invariant
                    i <= count,
                    count == groups.len(),
                    count == epochs.len(),
                    groups == table.sequence(),
                    epochs == table.value_sequence(),
                    self.deep_view() == (QueueContent {
                        pending: armed_unknown(
                            pruned.pending,
                            fresh_attempt_id@,
                            groups.take(i as int),
                            epochs.take(i as int),
                            known.sequence(),
                        ),
                        ..pruned
                    }),
                    write == (prunes(start, live.sequence()) || names_unknown(
                        groups.take(i as int),
                        known.sequence(),
                    )),
                decreases count - i,
            {
                assert(groups.take(i + 1).drop_last() =~= groups.take(i as int));
                assert(epochs.take(i + 1).drop_last() =~= epochs.take(i as int));
                let group = table.key_at(i);
                let epoch: u64 = *table.value_at(i);
                let is_known = known.contains(group);
                if !is_known {
                    let mut pending = match self.pending.take() {
                        Some(intent) => intent,
                        None => PendingEpochBackfill::new(fresh_attempt_id.clone()),
                    };
                    let ghost before = pending.deep_view();
                    let _ = pending.groups.insert(group.clone(), epoch);
                    assert(pending.deep_view() == before.armed(groups[i as int], epoch));
                    self.pending = Some(pending);
                    write = true;
                }
                proof {
                    let n = groups.take(i + 1);
                    let o = groups.take(i as int);
                    if !is_known {
                        assert(!known.sequence().contains(n[i as int]));
                    }
                    if names_unknown(o, known.sequence()) {
                        let j = choose|j: int|
                            0 <= j < o.len() && !known.sequence().contains(#[trigger] o[j]);
                        assert(!known.sequence().contains(n[j]));
                    }
                    if names_unknown(n, known.sequence()) && is_known {
                        let j = choose|j: int|
                            0 <= j < n.len() && !known.sequence().contains(#[trigger] n[j]);
                        assert(!known.sequence().contains(o[j]));
                    }
                }
                i += 1;
            }
            assert(groups.take(count as int) =~= groups);
            assert(epochs.take(count as int) =~= epochs);
            return write;
        }
        if table.is_empty() {
            return false;
        }
        let mut pending = PendingEpochBackfill::new(fresh_attempt_id);
        pending.groups = table;
        self.pending = Some(pending);
        false
    }
}

/// The stored journal of the queue.
#[derive(Debug, PartialEq, Eq)]
pub struct PersistedEpochBackfillIntentJournal {
    pub version: u32,
    pub pending: Option<PersistedEpochBackfillIntent>,
    pub active: Option<PersistedEpochBackfillIntent>,
    pub queued: Vec<PersistedEpochBackfillIntent>,
    pub retry_not_before_unix_ms: Option<u64>,
}

pub open spec fn persists_optional(
    intent: Option<IntentContent>,
    stored: Option<PersistedContent>,
) -> bool {
    match (intent, stored) {
        (Some(intent), Some(stored)) => persists(intent, stored),
        (None, None) => true,
        _ => false,
    }
}

pub open spec fn optional_fault(stored: Option<PersistedContent>) -> Option<Seq<char>> {
    match stored {
        Some(stored) => stored_intent_fault(stored),
        None => None,
    }
}

pub open spec fn optional_restored(stored: Option<PersistedContent>) -> Option<IntentContent> {
    match stored {
        Some(stored) => Some(restored_intent(stored)),
        None => None,
    }
}

/// The fault of the first stored intent of a list that has one.
pub open spec fn list_fault(stored: Seq<PersistedContent>) -> Option<Seq<char>>
    decreases stored.len(),
{
    if stored.len() == 0 {
        None
    } else {
        match list_fault(stored.drop_last()) {
            Some(fault) => Some(fault),
            None => stored_intent_fault(stored.last()),
        }
    }
}

/// The fault, if any, for which a journal is refused.
pub open spec fn journal_fault(journal: PersistedEpochBackfillIntentJournal) -> Option<Seq<char>> {
    if journal.version != EPOCH_BACKFILL_INTENT_JOURNAL_VERSION {
        Some("unsupported durable epoch-backfill intent journal"@)
    } else if optional_fault(journal.pending.deep_view()) is Some {
        optional_fault(journal.pending.deep_view())
    } else if optional_fault(journal.active.deep_view()) is Some {
        optional_fault(journal.active.deep_view())
    } else {
        list_fault(journal.queued.deep_view())
    }
}

fn persist_optional(intent: &Option<PendingEpochBackfill>) -> (stored: Option<
    PersistedEpochBackfillIntent,
>)
    ensures
        persists_optional(intent.deep_view(), stored.deep_view()),
{
    match intent {
        Some(held) => Some(PersistedEpochBackfillIntent::of(held)),
        None => None,
    }
}

fn restore_optional(stored: Option<PersistedEpochBackfillIntent>) -> (restored: Result<
    Option<PendingEpochBackfill>,
    AppError,
>)
    ensures
        match restored {
            Ok(intent) => optional_fault(stored.deep_view()) is None && intent.deep_view()
                == optional_restored(stored.deep_view()),
            Err(error) => optional_fault(stored.deep_view()) matches Some(fault) && (
            error matches AppError::BlockingTask(text) && text@ == fault),
        },
{
    match stored {
        Some(held) => match PendingEpochBackfill::try_restore(held) {
            Ok(intent) => Ok(Some(intent)),
            Err(error) => Err(error),
        },
        None => Ok(None),
    }
}

fn restore_list(stored: Vec<PersistedEpochBackfillIntent>) -> (restored: Result<
    Vec<PendingEpochBackfill>,
    AppError,
>)
    ensures
        match restored {
            Ok(intents) => list_fault(stored.deep_view()) is None && intents.deep_view()
                == stored.deep_view().map_values(|s: PersistedContent| restored_intent(s)),
            Err(error) => list_fault(stored.deep_view()) matches Some(fault) && (
            error matches AppError::BlockingTask(text) && text@ == fault),
        },
{
    let ghost all = stored.deep_view();
    let mut source = stored;
    let mut restored: Vec<PendingEpochBackfill> = Vec::new();
    assert(all.take(0) =~= Seq::<PersistedContent>::empty());
    assert(all.skip(0) =~= all);
    assert(restored.deep_view() =~= all.take(0).map_values(
        |s: PersistedContent| restored_intent(s),
    ));
    while source.len() > 0
        invariant
            all == stored.deep_view(),
            source@.len() <= all.len(),
            source.deep_view() == all.skip(all.len() - source@.len()),
            list_fault(all.take(all.len() - source@.len())) is None,
            restored.deep_view() == all.take(all.len() - source@.len()).map_values(
                |s: PersistedContent| restored_intent(s),
            ),
        decreases source.len(),
    {
        let ghost done = all.len() - source@.len();
        let ghost before_source = source;
        let ghost before = restored.deep_view();
        let first = source.remove(0);
        assert(first.deep_view() == all[done]) by {
            assert(before_source.deep_view()[0] == all.skip(done)[0]);
        }
        assert(source.deep_view() =~= all.skip(done + 1)) by {
            assert forall|i: int| 0 <= i < source@.len() implies source.deep_view()[i] == all.skip(
                done + 1,
            )[i] by {
                assert(source@[i] == before_source@[i + 1]);
                assert(before_source.deep_view()[i + 1] == all.skip(done)[i + 1]);
            }
        }
        assert(all.take(done + 1).drop_last() =~= all.take(done));
        match PendingEpochBackfill::try_restore(first) {
            Ok(intent) => {
                let ghost added = intent.deep_view();
                restored.push(intent);
                assert(restored.deep_view() =~= before.push(added));
                assert(restored.deep_view() =~= all.take(done + 1).map_values(
                    |s: PersistedContent| restored_intent(s),
                ));
            },
            Err(error) => {
                proof {
                    lemma_list_fault_persists(all, done + 1);
                }
                return Err(error);
            },
        }
    }
    assert(all.take(all.len() as int) =~= all);
    Ok(restored)
}

proof fn lemma_list_fault_persists(stored: Seq<PersistedContent>, count: int)
    requires
        0 <= count <= stored.len(),
        list_fault(stored.take(count)) is Some,
    ensures
        list_fault(stored) == list_fault(stored.take(count)),
    decreases stored.len() - count,
{
    if count == stored.len() {
        assert(stored.take(count) =~= stored);
    } else {
        assert(stored.take(count + 1).drop_last() =~= stored.take(count));
        lemma_list_fault_persists(stored, count + 1);
    }
}

/// The wall-clock deadline that the journal holds for the queue's pacing.
pub open spec fn journal_deadline(queue: QueueContent, now_ms: u64, unix_now_secs: u64) -> Option<
    u64,
> {
    match queue.retry_not_before_ms {
        Some(not_before) => if left_until(not_before, now_ms) == 0 {
            None
        } else {
            Some(saturated(unix_ms(unix_now_secs) + left_until(not_before, now_ms)))
        },
        None => None,
    }
}

/// Whether a journal holds a queue, with a deadline for its pacing.
pub open spec fn journals(
    queue: QueueContent,
    deadline: Option<u64>,
    stored: PersistedEpochBackfillIntentJournal,
) -> bool {
    &&& stored.version == EPOCH_BACKFILL_INTENT_JOURNAL_VERSION
    &&& persists_optional(queue.pending, stored.pending.deep_view())
    &&& persists_optional(queue.active, stored.active.deep_view())
    &&& stored.queued.deep_view().len() == queue.queued.len()
    &&& forall|i: int|
        0 <= i < queue.queued.len() ==> persists(
            queue.queued[i],
            #[trigger] stored.queued.deep_view()[i],
        )
    &&& stored.retry_not_before_unix_ms == deadline
}

/// What a journal holds: the queue that it was written from.
pub open spec fn restored_queue(
    journal: PersistedEpochBackfillIntentJournal,
    unix_now_secs: u64,
    now_ms: u64,
    journal_dirty: bool,
) -> QueueContent {
    QueueContent {
        pending: optional_restored(journal.pending.deep_view()),
        active: optional_restored(journal.active.deep_view()),
        queued: journal.queued.deep_view().map_values(|s: PersistedContent| restored_intent(s)),
        retry_not_before_ms: match journal.retry_not_before_unix_ms {
            Some(deadline) => {
                let wait = restored_wait(deadline, unix_now_secs);
                if wait == 0 || now_ms + wait > u64::MAX {
                    None
                } else {
                    Some((now_ms + wait) as u64)
                }
            },
            None => None,
        },
        journal_dirty,
    }
}

/// A queue after a journal was refused: the intents before the faulty one are taken
/// in, nothing else is.
pub open spec fn refused_queue(
    queue: QueueContent,
    journal: PersistedEpochBackfillIntentJournal,
) -> QueueContent {
    if journal.version != EPOCH_BACKFILL_INTENT_JOURNAL_VERSION || optional_fault(
        journal.pending.deep_view(),
    ) is Some {
        queue
    } else if optional_fault(journal.active.deep_view()) is Some {
        QueueContent { pending: optional_restored(journal.pending.deep_view()), ..queue }
    } else {
        QueueContent {
            pending: optional_restored(journal.pending.deep_view()),
            active: optional_restored(journal.active.deep_view()),
            ..queue
        }
    }
}

/// Whether two intents are for the same attempt: the same groups at the same epochs,
/// the same counters and the same deferral.
pub open spec fn same_intent(left: IntentContent, right: IntentContent) -> bool {
    &&& left.attempt_id == right.attempt_id
    &&& left.execution_attempts == right.execution_attempts
    &&& left.eose_unconfirmed_attempts == right.eose_unconfirmed_attempts
    &&& left.no_progress_attempts == right.no_progress_attempts
    &&& left.last_deferred_audit == right.last_deferred_audit
    &&& left.groups.len() == right.groups.len()
    &&& forall|group: Seq<u8>|
        #[trigger] left.stalled_epoch(group) == right.stalled_epoch(group)
}

/// Whether two places both hold the same intent, or neither holds one.
pub open spec fn same_optional_intent(
    left: Option<IntentContent>,
    right: Option<IntentContent>,
) -> bool {
    match (left, right) {
        (Some(left), Some(right)) => same_intent(left, right),
        (None, None) => true,
        _ => false,
    }
}

impl EpochBackfillQueue {
    /// The journal to store, or nothing where the stored one is to be cleared:
    /// no intent is left and no pacing runs.
    pub fn journal(&self, now_ms: u64, unix_now_secs: u64) -> (journal: Option<
        PersistedEpochBackfillIntentJournal,
    >)
        ensures
            ({
                let queue = self.deep_view();
                let deadline = journal_deadline(queue, now_ms, unix_now_secs);
                match journal {
                    None => !queue.has_pending() && deadline is None,
                    Some(stored) => (queue.has_pending() || deadline is Some) && journals(
                        queue,
                        deadline,
                        stored,
                    ),
                }
            }),
    {
        let deadline = epoch_backfill_retry_deadline_unix_ms(
            self.retry_not_before_ms,
            now_ms,
            unix_now_secs,
        );
        if !self.has_pending_epoch_backfill() && deadline.is_none() {
            return None;
        }
        let mut queued: Vec<PersistedEpochBackfillIntent> = Vec::new();
        let mut i: usize = 0;
        while i < self.queued.len()
            invariant
                i <= self.queued@.len(),
                queued@.len() == i,
                forall|j: int|
                    0 <= j < i ==> persists(
                        self.queued@[j].deep_view(),
                        (#[trigger] queued@[j]).deep_view(),
                    ),
            decreases self.queued.len() - i,
        {
            queued.push(PersistedEpochBackfillIntent::of(&self.queued[i]));
            i += 1;
        }
        assert forall|j: int| 0 <= j < self.deep_view().queued.len() implies persists(
            self.deep_view().queued[j],
            #[trigger] queued.deep_view()[j],
        ) by {
            assert(queued.deep_view()[j] == queued@[j].deep_view());
        }
        Some(
            PersistedEpochBackfillIntentJournal {
                version: EPOCH_BACKFILL_INTENT_JOURNAL_VERSION,
                pending: persist_optional(&self.pending),
                active: persist_optional(&self.active),
                queued,
                retry_not_before_unix_ms: deadline,
            },
        )
    }

    /// Restores the queue from its journal. An intent that was active when the
    /// process ended goes back as an interrupted one. Returns whether the journal
    /// must be written again.
    pub fn restore_epoch_backfill_intent_journal(
        &mut self,
        journal: PersistedEpochBackfillIntentJournal,
        unix_now_secs: u64,
        now_ms: u64,
    ) -> (restored: Result<bool, AppError>)
        ensures
            match restored {
                Err(error) => {
                    &&& journal_fault(journal) matches Some(fault) && (
                    error matches AppError::BlockingTask(text) && text@ == fault)
                    &&& final(self).deep_view() == refused_queue(old(self).deep_view(), journal)
                },
                Ok(write_journal) => {
                    &&& journal_fault(journal) is None
                    &&& write_journal == (journal.active is Some)
                    &&& final(self).deep_view() == restored_queue(
                        journal,
                        unix_now_secs,
                        now_ms,
                        old(self).deep_view().journal_dirty,
                    ).recovered()
                },
            },
    {
        if journal.version != EPOCH_BACKFILL_INTENT_JOURNAL_VERSION {
            return Err(
                AppError::BlockingTask(
                    "unsupported durable epoch-backfill intent journal".to_owned(),
                ),
            );
        }
        match restore_optional(journal.pending) {
            Ok(intent) => {
                self.pending = intent;
            },
            Err(error) => {
                return Err(error);
            },
        }
        match restore_optional(journal.active) {
            Ok(intent) => {
                self.active = intent;
            },
            Err(error) => {
                return Err(error);
            },
        }
        match restore_list(journal.queued) {
            Ok(intents) => {
                self.queued = intents;
            },
            Err(error) => {
                return Err(error);
            },
        }
        self.retry_not_before_ms =
        restore_epoch_backfill_retry_deadline(
            journal.retry_not_before_unix_ms,
            unix_now_secs,
            now_ms,
        );
        Ok(self.recover_active_epoch_backfill_after_cancellation())
    }
}

/// A queue survives being written to its journal and read back: no intent is refused,
/// and each is found again in its place.
pub proof fn law_journal_restores_the_queue(
    queue: QueueContent,
    deadline: Option<u64>,
    journal: PersistedEpochBackfillIntentJournal,
    unix_now_secs: u64,
    now_ms: u64,
)
    requires
        queue.pending is Some ==> storable(queue.pending->0),
        queue.active is Some ==> storable(queue.active->0),
        forall|i: int| 0 <= i < queue.queued.len() ==> storable(#[trigger] queue.queued[i]),
        journals(queue, deadline, journal),
    ensures
        journal_fault(journal) is None,
        ({
            let restored = restored_queue(journal, unix_now_secs, now_ms, queue.journal_dirty);
            &&& same_optional_intent(restored.pending, queue.pending)
            &&& same_optional_intent(restored.active, queue.active)
            &&& restored.queued.len() == queue.queued.len()
            &&& forall|i: int|
                0 <= i < queue.queued.len() ==> same_intent(
                    #[trigger] restored.queued[i],
                    queue.queued[i],
                )
        }),
{
    if queue.pending is Some {
        law_stored_intent_restores(queue.pending->0, journal.pending.deep_view()->0);
    }
    if queue.active is Some {
        law_stored_intent_restores(queue.active->0, journal.active.deep_view()->0);
    }
    let stored = journal.queued.deep_view();
    assert forall|i: int| 0 <= i < stored.len() implies stored_intent_fault(
        #[trigger] stored[i],
    ) is None && same_intent(restored_intent(stored[i]), queue.queued[i]) by {
        assert(storable(queue.queued[i]));
        law_stored_intent_restores(queue.queued[i], stored[i]);
    }
    lemma_sound_list_has_no_fault(stored);
    let restored = restored_queue(journal, unix_now_secs, now_ms, queue.journal_dirty);
    assert forall|i: int| 0 <= i < queue.queued.len() implies same_intent(
        #[trigger] restored.queued[i],
        queue.queued[i],
    ) by {
        assert(restored.queued[i] == restored_intent(stored[i]));
    }
}

proof fn lemma_sound_list_has_no_fault(stored: Seq<PersistedContent>)
    requires
        forall|i: int| 0 <= i < stored.len() ==> stored_intent_fault(#[trigger] stored[i]) is None,
    ensures
        list_fault(stored) is None,
    decreases stored.len(),
{
    if stored.len() > 0 {
        assert forall|i: int| 0 <= i < stored.drop_last().len() implies stored_intent_fault(
            #[trigger] stored.drop_last()[i],
        ) is None by {
            assert(stored.drop_last()[i] == stored[i]);
        }
        lemma_sound_list_has_no_fault(stored.drop_last());
    }
}

} // verus!
