//! Key packages fetched ahead of their use, kept for a while in memory.

use crate::collections::Key;
use crate::directory::key_packages::{FetchedContent, FetchedKeyPackage};
use vstd::prelude::*;

verus! {

/// How many key packages are kept.
pub const MEMBER_PREWARM_CACHE_LIMIT: usize = 256;

/// How long a key package is kept, in milliseconds.
pub const MEMBER_PREWARM_CACHE_TTL_MS: u64 = 300_000;

#[derive(Debug)]
struct PrewarmEntry {
    fetched: FetchedKeyPackage,
    inserted_at_ms: u64,
}

/// A kept key package and when it came.
#[verifier::ext_equal]
pub struct PrewarmContent {
    pub fetched: FetchedContent,
    pub inserted_at_ms: u64,
}

/// Key packages fetched ahead of their use: at most one of an account, the oldest
/// first.
#[derive(Debug)]
pub struct MemberKeyPackagePrewarmCache {
    entries: Vec<PrewarmEntry>,
}

spec fn content(entry: PrewarmEntry) -> PrewarmContent {
    PrewarmContent { fetched: entry.fetched.deep_view(), inserted_at_ms: entry.inserted_at_ms }
}

impl View for MemberKeyPackagePrewarmCache {
    type V = Seq<PrewarmContent>;

    closed spec fn view(&self) -> Seq<PrewarmContent> {
        self.entries@.map_values(|entry: PrewarmEntry| content(entry))
    }
}

/// What holds of kept key packages at any time: there is at most one of an account, and
/// no more than the limit.
pub open spec fn is_within_bounds(entries: Seq<PrewarmContent>) -> bool {
    &&& entries.len() <= MEMBER_PREWARM_CACHE_LIMIT
    &&& one_of_each(entries)
}

/// Whether no account is listed twice.
pub open spec fn one_of_each(entries: Seq<PrewarmContent>) -> bool {
    forall|i: int, j: int|
        0 <= i < j < entries.len() ==> (#[trigger] entries[i]).fetched.account_id_hex != (
        #[trigger] entries[j]).fetched.account_id_hex
}

/// Whether entries stand in the order in which they came.
pub open spec fn oldest_first(entries: Seq<PrewarmContent>) -> bool {
    forall|i: int, j: int|
        0 <= i < j < entries.len() ==> (#[trigger] entries[i]).inserted_at_ms <= (
        #[trigger] entries[j]).inserted_at_ms
}

/// Whether a kept key package is not yet too old.
pub open spec fn unexpired(entry: PrewarmContent, now_ms: u64) -> bool {
    now_ms <= entry.inserted_at_ms + MEMBER_PREWARM_CACHE_TTL_MS
}

/// What is kept at a time.
pub open spec fn kept_at(entries: Seq<PrewarmContent>, now_ms: u64) -> Seq<PrewarmContent> {
    entries.filter(|entry: PrewarmContent| unexpired(entry, now_ms))
}

/// What is kept without one account.
pub open spec fn without(entries: Seq<PrewarmContent>, account: Seq<char>) -> Seq<PrewarmContent> {
    entries.filter(|entry: PrewarmContent| entry.fetched.account_id_hex != account)
}

/// The newest entries, as many as are kept.
pub open spec fn bounded(entries: Seq<PrewarmContent>) -> Seq<PrewarmContent> {
    if entries.len() > MEMBER_PREWARM_CACHE_LIMIT {
        entries.skip(entries.len() - MEMBER_PREWARM_CACHE_LIMIT)
    } else {
        entries
    }
}

/// The key package kept of an account.
pub open spec fn kept_package(entries: Seq<PrewarmContent>, account: Seq<char>) -> Option<
    FetchedContent,
>
    decreases entries.len(),
{
    if entries.len() == 0 {
        None
    } else if entries[0].fetched.account_id_hex == account {
        Some(entries[0].fetched)
    } else {
        kept_package(entries.drop_first(), account)
    }
}

/// What is kept after a key package came.
pub open spec fn with_package(
    entries: Seq<PrewarmContent>,
    fetched: FetchedContent,
    now_ms: u64,
) -> Seq<PrewarmContent> {
    bounded(
        without(kept_at(entries, now_ms), fetched.account_id_hex).push(
            PrewarmContent { fetched, inserted_at_ms: now_ms },
        ),
    )
}

/// Choosing among entries keeps what holds of them, and what is chosen was among them.
proof fn lemma_chosen(entries: Seq<PrewarmContent>, keep: spec_fn(PrewarmContent) -> bool)
    ensures
        entries.filter(keep).len() <= entries.len(),
        forall|k: int|
            0 <= k < entries.filter(keep).len() ==> entries.contains(
                #[trigger] entries.filter(keep)[k],
            ) && keep(entries.filter(keep)[k]),
        one_of_each(entries) ==> one_of_each(entries.filter(keep)),
        oldest_first(entries) ==> oldest_first(entries.filter(keep)),
    decreases entries.len(),
{
    reveal(Seq::filter);
    if entries.len() > 0 {
        let rest = entries.drop_last();
        let before = rest.filter(keep);
        let after = entries.filter(keep);
        lemma_chosen(rest, keep);
        assert forall|k: int| 0 <= k < after.len() implies entries.contains(#[trigger] after[k])
            && keep(after[k]) by {
            if k < before.len() {
                assert(rest.contains(before[k]));
                let m = choose|m: int| 0 <= m < rest.len() && rest[m] == before[k];
                assert(entries[m] == after[k]);
            } else {
                assert(entries[entries.len() - 1] == after[k]);
            }
        }
        if one_of_each(entries) {
            assert forall|i: int, j: int| 0 <= i < j < rest.len() implies (
            #[trigger] rest[i]).fetched.account_id_hex != (
            #[trigger] rest[j]).fetched.account_id_hex by {
                assert(rest[i] == entries[i] && rest[j] == entries[j]);
            }
            assert forall|i: int, j: int| 0 <= i < j < after.len() implies (
            #[trigger] after[i]).fetched.account_id_hex != (
            #[trigger] after[j]).fetched.account_id_hex by {
                assert(after[i] == before[i]);
                if j < before.len() {
                    assert(after[j] == before[j]);
                } else {
                    assert(rest.contains(before[i]));
                    let m = choose|m: int| 0 <= m < rest.len() && rest[m] == before[i];
                    assert(entries[m] == after[i]);
                    assert(entries[entries.len() - 1] == after[j]);
                }
            }
        }
        if oldest_first(entries) {
            assert forall|i: int, j: int| 0 <= i < j < rest.len() implies (
            #[trigger] rest[i]).inserted_at_ms <= (#[trigger] rest[j]).inserted_at_ms by {
                assert(rest[i] == entries[i] && rest[j] == entries[j]);
            }
            assert forall|i: int, j: int| 0 <= i < j < after.len() implies (
            #[trigger] after[i]).inserted_at_ms <= (#[trigger] after[j]).inserted_at_ms by {
                assert(after[i] == before[i]);
                if j < before.len() {
                    assert(after[j] == before[j]);
                } else {
                    assert(rest.contains(before[i]));
                    let m = choose|m: int| 0 <= m < rest.len() && rest[m] == before[i];
                    assert(entries[m] == after[i]);
                    assert(entries[entries.len() - 1] == after[j]);
                }
            }
        }
    }
}

impl MemberKeyPackagePrewarmCache {
    #[verifier::type_invariant]
    spec fn bounded_entries(self) -> bool {
        is_within_bounds(self.entries@.map_values(|entry: PrewarmEntry| content(entry)))
    }

    pub fn new() -> (cache: Self)
        ensures
            cache@ == Seq::<PrewarmContent>::empty(),
    {
        let cache = MemberKeyPackagePrewarmCache { entries: Vec::new() };
        assert(cache@ =~= Seq::<PrewarmContent>::empty());
        cache
    }

    /// How many key packages are kept.
    pub fn len(&self) -> (len: usize)
        ensures
            len == self@.len(),
            is_within_bounds(self@),
    {
        proof {
            use_type_invariant(self);
        }
        self.entries.len()
    }

    /// Whether a key package of an account is kept, however old.
    pub fn holds(&self, account_id_hex: &str) -> (held: bool)
        ensures
            held == (kept_package(self@, account_id_hex@) is Some),
    {
        self.find(account_id_hex).is_some()
    }

    fn find(&self, account_id_hex: &str) -> (index: Option<usize>)
        ensures
            match index {
                Some(i) => i < self.entries@.len() && kept_package(self@, account_id_hex@) == Some(
                    self.entries@[i as int].fetched.deep_view(),
                ),
                None => kept_package(self@, account_id_hex@) is None,
            },
    {
        let account = account_id_hex.to_owned();
        let ghost all = self@;
        let mut i: usize = 0;
        assert(all.skip(0) =~= all);
        while i < self.entries.len()
            invariant
                i <= self.entries@.len(),
                all == self@,
                account@ == account_id_hex@,
                kept_package(all, account_id_hex@) == kept_package(
                    all.skip(i as int),
                    account_id_hex@,
                ),
            decreases self.entries.len() - i,
        {
            assert(all.skip(i as int)[0] == content(self.entries@[i as int]));
            assert(all.skip(i as int).drop_first() =~= all.skip(i + 1));
            if self.entries[i].fetched.account_id_hex.same(&account) {
                return Some(i);
            }
            i += 1;
        }
        None
    }

    fn remove_expired(&mut self, now_ms: u64)
        ensures
            final(self)@ == kept_at(old(self)@, now_ms),
    {
        proof {
            use_type_invariant(&*self);
        }
        let ghost all = self@;
        let ghost items = self.entries@;
        let ghost keep = |entry: PrewarmContent| unexpired(entry, now_ms);
        let mut source: Vec<PrewarmEntry> = Vec::new();
        core::mem::swap(&mut source, &mut self.entries);
        let mut kept: Vec<PrewarmEntry> = Vec::new();
        let ghost mut done: int = 0;
        proof {
            reveal(Seq::filter);
            assert(all.take(0).filter(keep) =~= Seq::<PrewarmContent>::empty());
            assert(items.skip(0) =~= items);
        }
        while source.len() > 0
            invariant
                0 <= done <= items.len(),
                done + source@.len() == items.len(),
                source@ == items.skip(done),
                self.entries@.len() == 0,
                all.len() == items.len(),
                forall|j: int| 0 <= j < items.len() ==> all[j] == content(#[trigger] items[j]),
                keep == (|entry: PrewarmContent| unexpired(entry, now_ms)),
                kept@.map_values(|entry: PrewarmEntry| content(entry)) == all.take(done).filter(
                    keep,
                ),
            decreases source.len(),
        {
            let entry = source.remove(0);
            assert(entry == items[done]);
            assert(source@ =~= items.skip(done + 1));
            proof {
                assert(all.take(done + 1).drop_last() =~= all.take(done));
                assert(all.take(done + 1).last() == content(entry));
                reveal(Seq::filter);
            }
            let fresh = now_ms <= entry.inserted_at_ms || now_ms - entry.inserted_at_ms
                <= MEMBER_PREWARM_CACHE_TTL_MS;
            if fresh {
                let ghost before = kept@.map_values(|entry: PrewarmEntry| content(entry));
                kept.push(entry);
                assert(kept@.map_values(|entry: PrewarmEntry| content(entry)) =~= before.push(
                    content(entry),
                ));
            }
            proof {
                done = done + 1;
            }
        }
        assert(all.take(all.len() as int) =~= all);
        proof {
            lemma_chosen(all, keep);
        }
        self.entries = kept;
    }

    /// Forgets the key package of an account.
    pub fn remove(&mut self, account_id_hex: &str)
        ensures
            final(self)@ == without(old(self)@, account_id_hex@),
            is_within_bounds(final(self)@),
    {
        proof {
            use_type_invariant(&*self);
        }
        let account = account_id_hex.to_owned();
        let ghost all = self@;
        let ghost items = self.entries@;
        let ghost keep = |entry: PrewarmContent| entry.fetched.account_id_hex != account_id_hex@;
        let mut source: Vec<PrewarmEntry> = Vec::new();
        core::mem::swap(&mut source, &mut self.entries);
        let mut kept: Vec<PrewarmEntry> = Vec::new();
        let ghost mut done: int = 0;
        proof {
            reveal(Seq::filter);
            assert(all.take(0).filter(keep) =~= Seq::<PrewarmContent>::empty());
            assert(items.skip(0) =~= items);
        }
        while source.len() > 0
            invariant
                0 <= done <= items.len(),
                done + source@.len() == items.len(),
                source@ == items.skip(done),
                account@ == account_id_hex@,
                self.entries@.len() == 0,
                all.len() == items.len(),
                forall|j: int| 0 <= j < items.len() ==> all[j] == content(#[trigger] items[j]),
                keep == (|entry: PrewarmContent| entry.fetched.account_id_hex != account_id_hex@),
                kept@.map_values(|entry: PrewarmEntry| content(entry)) == all.take(done).filter(
                    keep,
                ),
            decreases source.len(),
        {
            let entry = source.remove(0);
            assert(entry == items[done]);
            assert(source@ =~= items.skip(done + 1));
            proof {
                assert(all.take(done + 1).drop_last() =~= all.take(done));
                assert(all.take(done + 1).last() == content(entry));
                reveal(Seq::filter);
            }
            if !entry.fetched.account_id_hex.same(&account) {
                let ghost before = kept@.map_values(|entry: PrewarmEntry| content(entry));
                kept.push(entry);
                assert(kept@.map_values(|entry: PrewarmEntry| content(entry)) =~= before.push(
                    content(entry),
                ));
            }
            proof {
                done = done + 1;
            }
        }
        assert(all.take(all.len() as int) =~= all);
        proof {
            lemma_chosen(all, keep);
        }
        self.entries = kept;
    }

    /// The key package kept of an account. What is too old is forgotten first.
    pub fn get(&mut self, account_id_hex: &str, now_ms: u64) -> (fetched: Option<FetchedKeyPackage>)
        ensures
            final(self)@ == kept_at(old(self)@, now_ms),
            is_within_bounds(final(self)@),
            fetched.deep_view() == kept_package(kept_at(old(self)@, now_ms), account_id_hex@),
    {
        self.remove_expired(now_ms);
        proof {
            use_type_invariant(&*self);
        }
        match self.find(account_id_hex) {
            Some(i) => Some(self.entries[i].fetched.duplicate()),
            None => None,
        }
    }

    /// Keeps a key package. It replaces the account's earlier one, and the oldest
    /// leave when there are too many.
    pub fn insert(&mut self, fetched: FetchedKeyPackage, now_ms: u64)
        ensures
            final(self)@ == with_package(old(self)@, fetched.deep_view(), now_ms),
            is_within_bounds(final(self)@),
    {
        let ghost start = self@;
        proof {
            use_type_invariant(&*self);
        }
        self.remove_expired(now_ms);
        self.remove(fetched.account_id_hex.as_str());
        let ghost before = self@;
        let ghost f = fetched.deep_view();
        let mut held: Vec<PrewarmEntry> = Vec::new();
        core::mem::swap(&mut held, &mut self.entries);
        held.push(PrewarmEntry { fetched, inserted_at_ms: now_ms });
        let ghost all = before.push(PrewarmContent { fetched: f, inserted_at_ms: now_ms });
        assert(held@.map_values(|entry: PrewarmEntry| content(entry)) =~= all);
        assert(all.skip(0) =~= all);
        let ghost mut dropped: int = 0;
        while held.len() > MEMBER_PREWARM_CACHE_LIMIT
            invariant
                0 <= dropped <= all.len(),
                held@.map_values(|entry: PrewarmEntry| content(entry)) == all.skip(dropped),
                dropped > 0 ==> held@.len() >= MEMBER_PREWARM_CACHE_LIMIT,
            decreases held.len(),
        {
            let ghost listed = held@.map_values(|entry: PrewarmEntry| content(entry));
            let _ = held.remove(0);
            assert(held@.map_values(|entry: PrewarmEntry| content(entry)) =~= listed.drop_first());
            assert(listed.drop_first() =~= all.skip(dropped + 1));
            proof {
                dropped = dropped + 1;
            }
        }
        assert(held@.map_values(|entry: PrewarmEntry| content(entry)) =~= bounded(all));
        proof {
            law_insertion_keeps_the_cache(start, f, now_ms);
        }
        self.entries = held;
    }
}

/// The cache holds at most one key package of an account and never more than its limit,
/// whatever comes or goes: the one that came last is the last.
pub proof fn law_insertion_keeps_the_cache(
    entries: Seq<PrewarmContent>,
    fetched: FetchedContent,
    now_ms: u64,
)
    requires
        is_within_bounds(entries),
    ensures
        is_within_bounds(with_package(entries, fetched, now_ms)),
        with_package(entries, fetched, now_ms).len() > 0,
        with_package(entries, fetched, now_ms).last() == (PrewarmContent {
            fetched,
            inserted_at_ms: now_ms,
        }),
{
    let kept = kept_at(entries, now_ms);
    let others = without(kept, fetched.account_id_hex);
    let newest = PrewarmContent { fetched, inserted_at_ms: now_ms };
    let all = others.push(newest);
    let out = with_package(entries, fetched, now_ms);
    lemma_chosen(entries, |entry: PrewarmContent| unexpired(entry, now_ms));
    lemma_chosen(
        kept,
        |entry: PrewarmContent| entry.fetched.account_id_hex != fetched.account_id_hex,
    );
    assert forall|i: int, j: int| 0 <= i < j < all.len() implies (
    #[trigger] all[i]).fetched.account_id_hex != (#[trigger] all[j]).fetched.account_id_hex by {
        assert(all[i] == others[i]);
        if j < others.len() {
            assert(all[j] == others[j]);
        }
    }
    assert(out.last() == newest);
    let skipped = all.len() - out.len();
    assert forall|i: int, j: int| 0 <= i < j < out.len() implies (
    #[trigger] out[i]).fetched.account_id_hex != (#[trigger] out[j]).fetched.account_id_hex by {
        assert(out[i] == all[i + skipped] && out[j] == all[j + skipped]);
    }
}

/// Key packages stand in the order in which they came, where no clock went back, and the
/// oldest leave first: what is left is the end of what was kept.
pub proof fn law_the_oldest_leave_first(
    entries: Seq<PrewarmContent>,
    fetched: FetchedContent,
    now_ms: u64,
)
    requires
        oldest_first(entries),
        forall|i: int| 0 <= i < entries.len() ==> (#[trigger] entries[i]).inserted_at_ms <= now_ms,
    ensures
        oldest_first(with_package(entries, fetched, now_ms)),
        exists|n: int|
            0 <= n && with_package(entries, fetched, now_ms) == #[trigger] without(
                kept_at(entries, now_ms),
                fetched.account_id_hex,
            ).push(PrewarmContent { fetched, inserted_at_ms: now_ms }).skip(n),
{
    let kept = kept_at(entries, now_ms);
    let others = without(kept, fetched.account_id_hex);
    let all = others.push(PrewarmContent { fetched, inserted_at_ms: now_ms });
    let out = with_package(entries, fetched, now_ms);
    lemma_chosen(entries, |entry: PrewarmContent| unexpired(entry, now_ms));
    lemma_chosen(
        kept,
        |entry: PrewarmContent| entry.fetched.account_id_hex != fetched.account_id_hex,
    );
    assert forall|i: int| 0 <= i < others.len() implies (#[trigger] others[i]).inserted_at_ms
        <= now_ms by {
        assert(kept.contains(others[i]));
        let k = choose|k: int| 0 <= k < kept.len() && kept[k] == others[i];
        assert(entries.contains(kept[k]));
        let m = choose|m: int| 0 <= m < entries.len() && entries[m] == kept[k];
        assert(entries[m].inserted_at_ms <= now_ms);
    }
    assert forall|i: int, j: int| 0 <= i < j < all.len() implies (
    #[trigger] all[i]).inserted_at_ms <= (#[trigger] all[j]).inserted_at_ms by {
        assert(all[i] == others[i]);
        if j < others.len() {
            assert(all[j] == others[j]);
        }
    }
    let skipped = all.len() - out.len();
    assert(out =~= all.skip(skipped));
    assert forall|i: int, j: int| 0 <= i < j < out.len() implies (
    #[trigger] out[i]).inserted_at_ms <= (#[trigger] out[j]).inserted_at_ms by {
        assert(out[i] == all[i + skipped] && out[j] == all[j + skipped]);
    }
}

/// Forgetting an account, or what is too old, keeps what holds of the cache.
pub proof fn law_forgetting_keeps_the_cache(
    entries: Seq<PrewarmContent>,
    account: Seq<char>,
    now_ms: u64,
)
    requires
        is_within_bounds(entries),
    ensures
        is_within_bounds(without(entries, account)),
        is_within_bounds(kept_at(entries, now_ms)),
        oldest_first(entries) ==> oldest_first(without(entries, account)) && oldest_first(
            kept_at(entries, now_ms),
        ),
        kept_package(without(entries, account), account) is None,
{
    let other = |entry: PrewarmContent| entry.fetched.account_id_hex != account;
    lemma_chosen(entries, |entry: PrewarmContent| unexpired(entry, now_ms));
    lemma_chosen(entries, other);
    lemma_not_found(without(entries, account), account);
}

proof fn lemma_not_found(entries: Seq<PrewarmContent>, account: Seq<char>)
    requires
        forall|i: int|
            0 <= i < entries.len() ==> (#[trigger] entries[i]).fetched.account_id_hex != account,
    ensures
        kept_package(entries, account) is None,
    decreases entries.len(),
{
    if entries.len() > 0 {
        let rest = entries.drop_first();
        assert forall|i: int| 0 <= i < rest.len() implies (
        #[trigger] rest[i]).fetched.account_id_hex != account by {
            assert(rest[i] == entries[i + 1]);
        }
        lemma_not_found(rest, account);
    }
}

/// What was kept is found until it is too old, and not afterwards, whatever else is kept.
pub proof fn law_package_is_kept_until_it_expires(
    entries: Seq<PrewarmContent>,
    fetched: FetchedContent,
    now_ms: u64,
    later_ms: u64,
)
    requires
        is_within_bounds(entries),
        now_ms <= later_ms,
    ensures
        kept_package(
            kept_at(with_package(entries, fetched, now_ms), later_ms),
            fetched.account_id_hex,
        ) == (if later_ms - now_ms <= MEMBER_PREWARM_CACHE_TTL_MS {
            Some(fetched)
        } else {
            None
        }),
{
    let account = fetched.account_id_hex;
    let held = with_package(entries, fetched, now_ms);
    let keep = |entry: PrewarmContent| unexpired(entry, later_ms);
    let kept = kept_at(held, later_ms);
    law_insertion_keeps_the_cache(entries, fetched, now_ms);
    lemma_chosen(held, keep);
    if later_ms - now_ms <= MEMBER_PREWARM_CACHE_TTL_MS {
        reveal(Seq::filter);
        assert(kept.last() == held.last());
        lemma_found(kept, kept.len() - 1);
    } else {
        assert forall|i: int| 0 <= i < kept.len() implies (
        #[trigger] kept[i]).fetched.account_id_hex != account by {
            assert(held.contains(kept[i]));
            let k = choose|k: int| 0 <= k < held.len() && held[k] == kept[i];
            assert(held[held.len() - 1] == held.last());
        }
        lemma_not_found(kept, account);
    }
}

proof fn lemma_found(entries: Seq<PrewarmContent>, k: int)
    requires
        one_of_each(entries),
        0 <= k < entries.len(),
    ensures
        kept_package(entries, entries[k].fetched.account_id_hex) == Some(entries[k].fetched),
    decreases entries.len(),
{
    if k > 0 {
        let rest = entries.drop_first();
        assert(entries[0].fetched.account_id_hex != entries[k].fetched.account_id_hex);
        assert forall|i: int, j: int| 0 <= i < j < rest.len() implies (
        #[trigger] rest[i]).fetched.account_id_hex != (
        #[trigger] rest[j]).fetched.account_id_hex by {
            assert(rest[i] == entries[i + 1] && rest[j] == entries[j + 1]);
        }
        assert(rest[k - 1] == entries[k]);
        lemma_found(rest, k - 1);
    }
}

} // verus!
