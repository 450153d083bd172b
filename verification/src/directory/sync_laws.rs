//! What a plan of directory subscriptions watches.

use crate::collections::dropped_keys;
use crate::directory::records::{
    KIND_MARMOT_INBOX_RELAY_LIST, KIND_MARMOT_KEY_PACKAGE, KIND_NIP65_RELAY_LIST,
    KIND_NOSTR_CONTACT_LIST, KIND_NOSTR_METADATA,
};
use crate::directory::sync::{
    batches_of, law_batches_watch_every_account_once, local_kinds, plan_of,
    user_kinds, watched, BatchContent,
};
use crate::order::{ascending_set, lemma_ascending_set_exists, lemma_push_contains};
use vstd::prelude::*;

verus! {

proof fn lemma_watched_in_a_batch(batches: Seq<BatchContent>, author: Seq<char>)
    ensures
        watched(batches).contains(author) <==> exists|i: int|
            0 <= i < batches.len() && (#[trigger] batches[i]).authors.contains(author),
    decreases batches.len(),
{
    if batches.len() > 0 {
        let rest = batches.drop_first();
        lemma_watched_in_a_batch(rest, author);
        crate::directory::merge::lemma_concat_contains(
            batches[0].authors,
            watched(rest),
            author,
        );
        if watched(rest).contains(author) {
            let i = choose|i: int|
                0 <= i < rest.len() && (#[trigger] rest[i]).authors.contains(author);
            assert(batches[i + 1] == rest[i]);
        }
        if exists|i: int|
            0 <= i < batches.len() && (#[trigger] batches[i]).authors.contains(author) {
            let i = choose|i: int|
                0 <= i < batches.len() && (#[trigger] batches[i]).authors.contains(author);
            if i > 0 {
                assert(rest[i - 1] == batches[i]);
            }
        }
    }
}

proof fn lemma_batches_keep_since(
    group: Seq<char>,
    accounts: Seq<Seq<char>>,
    kinds: Seq<u64>,
    since: Option<u64>,
    size: nat,
    index: nat,
)
    requires
        size > 0,
    ensures
        forall|i: int|
            0 <= i < batches_of(group, accounts, kinds, since, size, index).len() ==> (
            #[trigger] batches_of(group, accounts, kinds, since, size, index)[i]).since == since,
    decreases accounts.len(),
{
    if accounts.len() > 0 {
        let n = crate::directory::sync::batch_len(accounts.len(), size) as int;
        let all = batches_of(group, accounts, kinds, since, size, index);
        let more = batches_of(group, accounts.skip(n), kinds, since, size, index + 1);
        lemma_batches_keep_since(group, accounts.skip(n), kinds, since, size, index + 1);
        assert forall|i: int| 0 <= i < all.len() implies (#[trigger] all[i]).since == since by {
            if i > 0 {
                assert(all[i] == more[i - 1]);
            }
        }
    }
}

proof fn lemma_dropped(keys: Seq<Seq<char>>, listed: Seq<Seq<char>>, key: Seq<char>)
    ensures
        dropped_keys(keys, listed).contains(key) <==> keys.contains(key) && !listed.contains(key),
    decreases keys.len(),
{
    if keys.len() > 0 {
        let rest = keys.drop_last();
        lemma_dropped(rest, listed, key);
        assert(keys =~= rest.push(keys.last()));
        lemma_push_contains(rest, keys.last(), key);
        lemma_push_contains(dropped_keys(rest, listed), keys.last(), key);
    }
}

proof fn lemma_dropped_distinct(keys: Seq<Seq<char>>, listed: Seq<Seq<char>>)
    requires
        keys.no_duplicates(),
    ensures
        dropped_keys(keys, listed).no_duplicates(),
    decreases keys.len(),
{
    if keys.len() > 0 {
        let rest = keys.drop_last();
        let last = keys.last();
        assert(rest.no_duplicates());
        lemma_dropped_distinct(rest, listed);
        lemma_dropped(rest, listed, last);
        if rest.contains(last) {
            let k = choose|k: int| 0 <= k < rest.len() && rest[k] == last;
            assert(keys[k] == keys[keys.len() - 1]);
        }
        let before = dropped_keys(rest, listed);
        assert forall|a: int, b: int|
            0 <= a < before.push(last).len() && 0 <= b < before.push(last).len() && a
                != b implies before.push(last)[a] != before.push(last)[b] by {
            if a == before.len() {
                assert(before.contains(before[b]));
            } else if b == before.len() {
                assert(before.contains(before[a]));
            }
        }
    }
}

/// A plan watches the profile, relay lists and key packages of everyone who is local or
/// known, and of nobody else; the contact list of local accounts besides. It goes to
/// exactly the given relays, and asks for events from the given time on.
pub proof fn law_plan_watches_everyone(
    endpoints: Seq<Seq<char>>,
    local: Seq<Seq<char>>,
    known: Seq<Seq<char>>,
    since: Option<u64>,
    size: nat,
    author: Seq<char>,
)
    ensures
        ({
            let plan = plan_of(endpoints, local, known, since, size);
            &&& forall|relay: Seq<char>| #[trigger]
                plan.endpoints.contains(relay) <==> endpoints.contains(relay)
            &&& (exists|i: int|
                0 <= i < plan.batches.len() && (#[trigger] plan.batches[i]).authors.contains(author))
                <==> local.contains(author) || known.contains(author)
            &&& local.contains(author) ==> exists|i: int|
                0 <= i < plan.batches.len() && (#[trigger] plan.batches[i]).authors.contains(author)
                    && plan.batches[i].kinds.contains(KIND_NOSTR_CONTACT_LIST)
            &&& forall|i: int|
                0 <= i < plan.batches.len() ==> {
                    let batch = #[trigger] plan.batches[i];
                    &&& batch.kinds.contains(KIND_NOSTR_METADATA)
                    &&& batch.kinds.contains(KIND_NIP65_RELAY_LIST)
                    &&& batch.kinds.contains(KIND_MARMOT_INBOX_RELAY_LIST)
                    &&& batch.kinds.contains(KIND_MARMOT_KEY_PACKAGE)
                    &&& batch.since == since
                    &&& batch.authors.len() <= size || batch.authors.len() <= 1
                }
        }),
{
    let own = ascending_set(local);
    let remote = dropped_keys(ascending_set(known), own);
    let n: nat = if size == 0 {
        1
    } else {
        size
    };
    let plan = plan_of(endpoints, local, known, since, size);
    let left = batches_of("local"@, own, local_kinds(), since, n, 0);
    let right = batches_of("users"@, remote, user_kinds(), since, n, 0);
    assert(plan.batches == left + right);
    lemma_ascending_set_exists(endpoints);
    lemma_ascending_set_exists(local);
    lemma_ascending_set_exists(known);
    lemma_dropped(ascending_set(known), own, author);
    law_batches_watch_every_account_once("local"@, own, local_kinds(), since, n, 0);
    law_batches_watch_every_account_once("users"@, remote, user_kinds(), since, n, 0);
    lemma_batches_keep_since("local"@, own, local_kinds(), since, n, 0);
    lemma_batches_keep_since("users"@, remote, user_kinds(), since, n, 0);
    lemma_watched_in_a_batch(left, author);
    lemma_watched_in_a_batch(right, author);
    assert(local_kinds()[0] == KIND_NOSTR_METADATA && local_kinds()[1] == KIND_NOSTR_CONTACT_LIST
        && local_kinds()[2] == KIND_NIP65_RELAY_LIST && local_kinds()[3]
        == KIND_MARMOT_INBOX_RELAY_LIST && local_kinds()[4] == KIND_MARMOT_KEY_PACKAGE);
    assert(user_kinds()[0] == KIND_NOSTR_METADATA && user_kinds()[1] == KIND_NIP65_RELAY_LIST
        && user_kinds()[2] == KIND_MARMOT_INBOX_RELAY_LIST && user_kinds()[3]
        == KIND_MARMOT_KEY_PACKAGE);
    if own.contains(author) {
        let i = choose|i: int| 0 <= i < left.len() && (#[trigger] left[i]).authors.contains(author);
        assert(plan.batches[i] == left[i]);
        assert(plan.batches[i].kinds.contains(KIND_NOSTR_CONTACT_LIST));
    }
    if remote.contains(author) {
        let i = choose|i: int|
            0 <= i < right.len() && (#[trigger] right[i]).authors.contains(author);
        assert(plan.batches[left.len() + i] == right[i]);
    }
    if exists|i: int|
        0 <= i < plan.batches.len() && (#[trigger] plan.batches[i]).authors.contains(author) {
        let i = choose|i: int|
            0 <= i < plan.batches.len() && (#[trigger] plan.batches[i]).authors.contains(author);
        if i < left.len() {
            assert(left[i].authors.contains(author));
        } else {
            assert(right[i - left.len()].authors.contains(author));
        }
    }
    assert forall|i: int| 0 <= i < plan.batches.len() implies ({
        let batch = #[trigger] plan.batches[i];
        &&& batch.kinds.contains(KIND_NOSTR_METADATA)
        &&& batch.kinds.contains(KIND_NIP65_RELAY_LIST)
        &&& batch.kinds.contains(KIND_MARMOT_INBOX_RELAY_LIST)
        &&& batch.kinds.contains(KIND_MARMOT_KEY_PACKAGE)
        &&& batch.since == since
        &&& batch.authors.len() <= size || batch.authors.len() <= 1
    }) by {
        if i < left.len() {
            assert(plan.batches[i] == left[i]);
        } else {
            assert(plan.batches[i] == right[i - left.len()]);
        }
    }
}

/// Every account that is watched counts once.
pub proof fn law_watched_accounts_are_counted_once(
    endpoints: Seq<Seq<char>>,
    local: Seq<Seq<char>>,
    known: Seq<Seq<char>>,
    since: Option<u64>,
    size: nat,
)
    ensures
        ({
            let plan = plan_of(endpoints, local, known, since, size);
            plan.watched_user_count == local.to_set().union(known.to_set()).len()
        }),
{
    let own = ascending_set(local);
    let remote = dropped_keys(ascending_set(known), own);
    lemma_ascending_set_exists(local);
    lemma_ascending_set_exists(known);
    lemma_dropped_distinct(ascending_set(known), own);
    own.unique_seq_to_set();
    remote.unique_seq_to_set();
    assert forall|k: Seq<char>| #[trigger]
        own.to_set().union(remote.to_set()).contains(k) <==> local.to_set().union(
            known.to_set(),
        ).contains(k) by {
        lemma_dropped(ascending_set(known), own, k);
    }
    assert(own.to_set().union(remote.to_set()) =~= local.to_set().union(known.to_set()));
    assert forall|k: Seq<char>| #[trigger] own.to_set().contains(k) implies !remote.to_set().contains(
        k,
    ) by {
        lemma_dropped(ascending_set(known), own, k);
    }
    vstd::set_lib::lemma_set_disjoint_lens(own.to_set(), remote.to_set());
}

} // verus!
