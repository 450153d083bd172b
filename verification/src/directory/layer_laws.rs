//! What holds of the layers of a search, and of what is written to every account's cache.

use crate::directory::app_discovery::follows_known;
use crate::directory::app_ingest::{entry_with_package, stored_package};
use crate::directory::app_remember::with_edges;
use crate::directory::app_state::{
    local_revision_liveness, signs, signs_now, standing, AccountContent, AppContent,
};
use crate::directory::app_warm::accounts_with;
use crate::directory::cache::{graph_fault, has_package_in_slot, CacheContent};
use crate::directory::entry::{DirectoryKeyPackageContent, EntryContent};
use crate::directory::key_packages::{cached_package, FetchedContent, ProtocolProfile};
use crate::directory::members::{
    decoded, decoded_cached, member_account, target_of, usable_cached, DecodedContent, TargetContent,
};
use crate::directory::members_fetch::has_fresh_kind;
use crate::directory::records::{DirectoryFreshness, EventRecordContent};
use crate::directory::search::{
    admitted, empty_layer, LayerContent, UpdateContent, SEARCH_MAX_CANDIDATES_PER_RADIUS,
};
use crate::directory::search_graph::{layer_completed, WalkContent};
use crate::directory::search_run::{
    all_admitted, beyond, follows_next, follows_taken, profiles_next, radius_done, SearchContent,
};
use crate::directory::self_nip65::{at_capacity, strict_choice, StrictContent};
use crate::error::ErrorContent;
use crate::order::lemma_push_contains;
use crate::text::{hex_bytes, is_hex_text};
use vstd::prelude::*;

verus! {

/// A layer takes in every follow that was not seen, up to its bound: where all were taken,
/// each is seen from then on and the new ones are candidates, and where not, the layer is
/// full and known to be cut. Nothing is taken in that is not followed, and none is lost.
pub proof fn law_layer_takes_in_unseen_follows(
    layer: LayerContent,
    seen: Set<Seq<char>>,
    follows: Seq<Seq<char>>,
    id: Seq<char>,
)
    ensures
        ({
            let taken = admitted(layer, seen, follows);
            &&& taken.all && follows.contains(id) ==> taken.seen.contains(id)
            &&& taken.all && follows.contains(id) && !seen.contains(id)
                ==> taken.layer.candidates.contains(id)
            &&& !taken.all ==> taken.layer.truncated && taken.layer.candidates.len()
                >= SEARCH_MAX_CANDIDATES_PER_RADIUS
            &&& taken.all ==> taken.layer.truncated == layer.truncated
            &&& layer.candidates.len() + follows.len() <= SEARCH_MAX_CANDIDATES_PER_RADIUS
                ==> taken.all
            &&& layer.candidates.contains(id) ==> taken.layer.candidates.contains(id)
            &&& seen.contains(id) ==> taken.seen.contains(id)
            &&& taken.layer.candidates.contains(id) ==> layer.candidates.contains(id) || (
            follows.contains(id) && !seen.contains(id))
            &&& taken.layer.candidates.len() <= layer.candidates.len() + follows.len()
        }),
    decreases follows.len(),
{
    if follows.len() > 0 && layer.candidates.len() < SEARCH_MAX_CANDIDATES_PER_RADIUS {
        let first = follows[0];
        let rest = follows.drop_first();
        if follows.contains(id) {
            let k = choose|k: int| 0 <= k < follows.len() && follows[k] == id;
            if k > 0 {
                assert(rest[k - 1] == id);
            }
        }
        if rest.contains(id) {
            let k = choose|k: int| 0 <= k < rest.len() && rest[k] == id;
            assert(follows[k + 1] == id);
        }
        assert(follows.contains(first)) by {
            assert(follows[0] == first);
        }
        if seen.contains(first) {
            law_layer_takes_in_unseen_follows(layer, seen, rest, id);
        } else {
            lemma_push_contains(layer.candidates, first, id);
            law_layer_takes_in_unseen_follows(
                LayerContent { candidates: layer.candidates.push(first), ..layer },
                seen.insert(first),
                rest,
                id,
            );
        }
    }
}

/// Lists of follows are taken in one after the other until the layer is full: where all were
/// taken, everybody on them is seen from then on.
pub proof fn law_layer_takes_in_every_list(
    layer: LayerContent,
    seen: Set<Seq<char>>,
    lists: Seq<Seq<Seq<char>>>,
    k: int,
    id: Seq<char>,
)
    ensures
        ({
            let taken = all_admitted(layer, seen, lists);
            &&& taken.all && 0 <= k < lists.len() && lists[k].contains(id) ==> taken.seen.contains(
                id,
            )
            &&& taken.all && 0 <= k < lists.len() && lists[k].contains(id) && !seen.contains(id)
                ==> taken.layer.candidates.contains(id)
            &&& !taken.all ==> taken.layer.truncated && taken.layer.candidates.len()
                >= SEARCH_MAX_CANDIDATES_PER_RADIUS
            &&& taken.all ==> taken.layer.truncated == layer.truncated
            &&& layer.candidates.contains(id) ==> taken.layer.candidates.contains(id)
            &&& seen.contains(id) ==> taken.seen.contains(id)
            &&& taken.all && taken.seen.contains(id) ==> seen.contains(id)
                || taken.layer.candidates.contains(id)
        }),
    decreases lists.len(),
{
    if lists.len() > 0 {
        let first = admitted(layer, seen, lists[0]);
        law_layer_takes_in_unseen_follows(layer, seen, lists[0], id);
        lemma_taken_are_candidates(layer, seen, lists[0], id);
        if first.all {
            let rest = lists.drop_first();
            law_layer_takes_in_every_list(first.layer, first.seen, rest, k - 1, id);
            if 0 < k < lists.len() {
                assert(rest[k - 1] == lists[k]);
            }
        }
    }
}

proof fn lemma_taken_are_candidates(
    layer: LayerContent,
    seen: Set<Seq<char>>,
    follows: Seq<Seq<char>>,
    id: Seq<char>,
)
    ensures
        admitted(layer, seen, follows).seen.contains(id) && !seen.contains(id) ==> admitted(
            layer,
            seen,
            follows,
        ).layer.candidates.contains(id),
    decreases follows.len(),
{
    if follows.len() > 0 && layer.candidates.len() < SEARCH_MAX_CANDIDATES_PER_RADIUS {
        let first = follows[0];
        let rest = follows.drop_first();
        if seen.contains(first) {
            lemma_taken_are_candidates(layer, seen, rest, id);
        } else {
            let grown = LayerContent { candidates: layer.candidates.push(first), ..layer };
            lemma_taken_are_candidates(grown, seen.insert(first), rest, id);
            lemma_push_contains(layer.candidates, first, id);
            law_layer_takes_in_unseen_follows(grown, seen.insert(first), rest, id);
        }
    }
}

/// A radius that is done is told as completed, and as cut where its layer was; the search
/// goes on to the next radius or turns to the discovery provider.
pub proof fn law_cut_radius_is_told(
    search: SearchContent,
    app: AppContent,
    updates: Seq<UpdateContent>,
)
    ensures
        ({
            let step = radius_done(search, app, updates);
            &&& step.updates.take(updates.len() as int) == updates
            &&& step.updates.last().trigger is RadiusCompleted
            &&& step.updates.len() == updates.len() + (if search.layer.truncated {
                2int
            } else {
                1int
            })
            &&& search.layer.truncated ==> step.updates[updates.len() as int].trigger
                is RadiusTruncated
            &&& step.need is NextRadius || step.need is Discovery
            &&& step.search.layer == empty_layer()
            &&& step.search.unknown.len() == 0
            &&& step.app == app
        }),
{
}

/// A step that is done goes on with the lists of follows that are unknown and, once none is,
/// ends the radius.
pub proof fn law_unknown_follows_are_asked_for(
    search: SearchContent,
    app: AppContent,
    lists: Seq<Seq<Seq<char>>>,
    updates: Seq<UpdateContent>,
)
    ensures
        search.unknown.len() == 0 ==> follows_next(search, app, updates).need is NextRadius
            || follows_next(search, app, updates).need is Discovery,
        search.unknown.len() > 0 ==> follows_next(search, app, updates).need is ContactLists,
        all_admitted(search.layer, search.walk.seen, lists).all && search.unknown.len() > 0
            ==> follows_taken(search, app, lists, updates).need is ContactLists,
        !all_admitted(search.layer, search.walk.seen, lists).all ==> !(follows_taken(
            search,
            app,
            lists,
            updates,
        ).need is ContactLists),
{
}

/// Profiles that are missing are asked for unless the search was cancelled; then, or once
/// none is missing, no more are.
pub proof fn law_missing_profiles_are_asked_for(
    search: SearchContent,
    app: AppContent,
    cancelled: bool,
    updates: Seq<UpdateContent>,
)
    ensures
        profiles_next(search, app, cancelled, updates).need is Profiles <==> search.missing.len()
            > 0 && !cancelled,
        search.depth.hop == search.radius_end ==> !(beyond(search, app, updates).need
            is ContactLists),
{
}

/// Where the searcher follows nobody the walk goes on from the seeds, and otherwise from the
/// layer's candidates.
pub proof fn law_walk_goes_on_from_its_candidates(
    walk: WalkContent,
    next: Seq<Seq<char>>,
    seeds: Seq<Seq<char>>,
)
    requires
        walk.radius < u16::MAX,
    ensures
        next.len() > 0 || walk.radius > 0 ==> layer_completed(walk, next, seeds).frontier == next
            && layer_completed(walk, next, seeds).off_graph == walk.off_graph,
        layer_completed(walk, next, seeds).radius == walk.radius + 1,
        layer_completed(walk, next, seeds).off_graph && !walk.off_graph ==> next.len() == 0
            && walk.radius == 0,
{
}

/// Learned follows are refused exactly where they name somebody twice or a signed-in
/// account's cache is closed; somebody who is not signed in is left out.
pub proof fn law_follows_are_learned_where_caches_are_open(
    accounts: Seq<AccountContent>,
    id: Seq<char>,
    npub: Seq<char>,
    follows: Seq<Seq<char>>,
)
    ensures
        with_edges(accounts, id, npub, follows).1 is None <==> forall|i: int|
            0 <= i < accounts.len() && signs_now(#[trigger] accounts[i])
                ==> !accounts[i].cache.closed && graph_fault(follows) is None,
        with_edges(accounts, id, npub, follows).0.len() == accounts.len(),
        forall|i: int|
            0 <= i < accounts.len() && !signs_now(#[trigger] accounts[i]) ==> with_edges(
                accounts,
                id,
                npub,
                follows,
            ).0[i] == accounts[i],
    decreases accounts.len(),
{
    if accounts.len() > 0 {
        let rest = accounts.drop_last();
        let end = accounts.len() - 1;
        law_follows_are_learned_where_caches_are_open(rest, id, npub, follows);
        assert(accounts[end] == accounts.last());
        let after = with_edges(accounts, id, npub, follows);
        let before = with_edges(rest, id, npub, follows);
        assert forall|i: int| 0 <= i < rest.len() implies #[trigger] accounts[i] == rest[i] by {}
        assert forall|i: int| 0 <= i < accounts.len() && !signs_now(
            #[trigger] accounts[i],
        ) implies after.0[i] == accounts[i] by {
            if i < end {
                assert(rest[i] == accounts[i]);
                assert(before.0[i] == rest[i]);
            }
        }
        if after.1 is None {
            assert forall|i: int| 0 <= i < accounts.len() && signs_now(
                #[trigger] accounts[i],
            ) implies !accounts[i].cache.closed && graph_fault(follows) is None by {
                if i < end {
                    assert(rest[i] == accounts[i]);
                }
            }
        }
        if forall|i: int|
            0 <= i < accounts.len() && signs_now(#[trigger] accounts[i])
                ==> !accounts[i].cache.closed && graph_fault(follows) is None {
            assert forall|i: int| 0 <= i < rest.len() && signs_now(#[trigger] rest[i]) implies
                !rest[i].cache.closed && graph_fault(follows) is None by {
                assert(rest[i] == accounts[i]);
            }
            assert(signs_now(accounts[end]) ==> !accounts[end].cache.closed);
        }
    }
}

/// Entries are written to the caches of the signed-in accounts; a closed one refuses them,
/// and accounts that are not signed in are left out.
pub proof fn law_entries_are_written_where_caches_are_open(
    accounts: Seq<AccountContent>,
    entries: Seq<EntryContent>,
    now: i64,
)
    ensures
        accounts_with(accounts, entries, now).1 is None <==> forall|i: int|
            0 <= i < accounts.len() && signs_now(#[trigger] accounts[i])
                ==> !accounts[i].cache.closed,
        accounts_with(accounts, entries, now).0.len() == accounts.len(),
        forall|i: int|
            0 <= i < accounts.len() && !signs_now(#[trigger] accounts[i]) ==> accounts_with(
                accounts,
                entries,
                now,
            ).0[i] == accounts[i],
    decreases accounts.len(),
{
    if accounts.len() > 0 {
        let rest = accounts.drop_last();
        let end = accounts.len() - 1;
        law_entries_are_written_where_caches_are_open(rest, entries, now);
        assert(accounts[end] == accounts.last());
        let after = accounts_with(accounts, entries, now);
        let before = accounts_with(rest, entries, now);
        assert forall|i: int| 0 <= i < accounts.len() && !signs_now(
            #[trigger] accounts[i],
        ) implies after.0[i] == accounts[i] by {
            if i < end {
                assert(rest[i] == accounts[i]);
                assert(before.0[i] == rest[i]);
            }
        }
        if after.1 is None {
            assert forall|i: int| 0 <= i < accounts.len() && signs_now(
                #[trigger] accounts[i],
            ) implies !accounts[i].cache.closed by {
                if i < end {
                    assert(rest[i] == accounts[i]);
                }
            }
        }
        if forall|i: int|
            0 <= i < accounts.len() && signs_now(#[trigger] accounts[i])
                ==> !accounts[i].cache.closed {
            assert forall|i: int| 0 <= i < rest.len() && signs_now(#[trigger] rest[i]) implies
                !rest[i].cache.closed by {
                assert(rest[i] == accounts[i]);
            }
            assert(signs_now(accounts[end]) ==> !accounts[end].cache.closed);
        }
    }
}

/// An entry takes on a fetched package and its lists. A signed-in account keeps its own
/// list of relays.
pub proof fn law_entry_takes_on_the_fetched_package(
    entry: EntryContent,
    fetched: FetchedContent,
    admitted: bool,
)
    ensures
        ({
            let after = entry_with_package(entry, fetched, admitted);
            &&& after.key_package == Some(stored_package(fetched))
            &&& after.account_id_hex == fetched.account_id_hex
            &&& after.profile == entry.profile
            &&& after.follows == entry.follows
            &&& after.relay_lists.inbox == fetched.relay_lists.inbox
            &&& admitted ==> after.relay_lists.nip65 == entry.relay_lists.nip65
            &&& !admitted ==> after.relay_lists == fetched.relay_lists
        }),
{
}

/// A cached package is judged by its bytes, and one whose bytes cannot be read is none.
pub proof fn law_cached_package_is_judged_by_its_bytes(
    table: Seq<DecodedContent>,
    package: DirectoryKeyPackageContent,
)
    ensures
        is_hex_text(package.key_package_hex) ==> decoded_cached(table, package) == decoded(
            table,
            hex_bytes(package.key_package_hex),
        ),
        !is_hex_text(package.key_package_hex) ==> decoded_cached(table, package) is Err,
{
}

/// A list is fresh where a record of its kind is not from the future.
pub proof fn law_fresh_list_is_of_its_kind(
    records: Seq<EventRecordContent>,
    kind: u64,
    freshness: DirectoryFreshness,
    i: int,
)
    requires
        0 <= i < records.len(),
    ensures
        records[i].event.kind == kind && records[i].event.created_at <= freshness.latest_created_at
            ==> has_fresh_kind(records, kind, freshness),
        (forall|j: int|
            0 <= j < records.len() ==> (#[trigger] records[j]).event.kind != kind
                || records[j].event.created_at > freshness.latest_created_at) ==> !has_fresh_kind(
            records,
            kind,
            freshness,
        ),
        !has_fresh_kind(Seq::empty(), kind, freshness),
{
    if records[i].event.kind == kind && records[i].event.created_at
        <= freshness.latest_created_at {
        assert(freshness.fresh(records[i]));
    }
}

/// A strict read that came to its capacity is refused, and so is one with a faulty record.
pub proof fn law_full_strict_read_is_refused(
    account: Seq<char>,
    freshness: DirectoryFreshness,
    records: Seq<StrictContent>,
)
    ensures
        at_capacity(records) ==> strict_choice(account, freshness, records) is Err,
        strict_choice(account, freshness, records) matches Ok(chosen) ==> (chosen is None
            <==> records.len() == 0),
{
}

/// Whether a package is in a slot is told by the account's own entry.
pub proof fn law_slot_is_taken_by_the_own_package(
    cache: CacheContent,
    account: Seq<char>,
    slot: Option<Seq<char>>,
)
    ensures
        has_package_in_slot(cache, account, slot) ==> cache.users.dom().contains(account)
            && cache.users[account].key_package is Some,
        cache.users.dom().contains(account) && cache.users[account].key_package is None
            ==> !has_package_in_slot(cache, account, slot),
        !cache.users.dom().contains(account) ==> !has_package_in_slot(cache, account, slot),
{
}

/// A cached package serves a member exactly where its revision is live, its bytes can be read
/// as one of the member, and it is a current one within its lifetime.
pub proof fn law_cached_package_serves_while_it_is_current(
    app: AppContent,
    target: TargetContent,
    entry: EntryContent,
    package: DirectoryKeyPackageContent,
    table: Seq<DecodedContent>,
    now: u64,
)
    requires
        entry.key_package == Some(package),
    ensures
        usable_cached(app, target, Some(entry), table, now) is Some <==> {
            &&& local_revision_liveness(
                app,
                target.account_id_hex,
                package.key_package_ref_hex,
                package.key_package_event_id,
            ) == Ok::<bool, ErrorContent>(true)
            &&& cached_package(target.account_id_hex, package, decoded_cached(table, package)) is Ok
            &&& decoded_cached(table, package) matches Ok(metadata)
                && metadata.credential_identity_hex == target.account_id_hex
                && metadata.protocol_profile == ProtocolProfile::Current && metadata.not_before
                <= now <= metadata.not_after
        },
        usable_cached(app, target, None, table, now) is None,
{
}

/// A member that is an account of this device whose signing is refused is told so, and no
/// other member is.
pub proof fn law_refused_signer_is_told(app: AppContent, name: Seq<char>, id: Seq<char>)
    requires
        target_of(app, name, id) is Ok,
    ensures
        target_of(app, name, id)->Ok_0.local_signing_unavailable <==> (member_account(
            app,
            name,
            id,
        ) matches Some(i) && signs(app.accounts[i]) && standing(app, id) is Refused),
{
}

/// The search takes those close to the searcher into its first layer beyond them.
pub proof fn law_close_accounts_enter_the_first_layer(
    search: SearchContent,
    app: AppContent,
    updates: Seq<UpdateContent>,
    id: Seq<char>,
)
    requires
        search.depth.hop < search.radius_end,
        search.depth.hop == 0,
        search.close.contains(id),
        search.close.len() <= SEARCH_MAX_CANDIDATES_PER_RADIUS,
        beyond(search, app, updates).need is ContactLists,
    ensures
        beyond(search, app, updates).search.walk.seen.contains(id),
        !search.walk.seen.contains(id) ==> beyond(
            search,
            app,
            updates,
        ).search.layer.candidates.contains(id),
{
    let taken = admitted(empty_layer(), search.walk.seen, search.close);
    law_layer_takes_in_unseen_follows(empty_layer(), search.walk.seen, search.close, id);
    if let Ok((cached, unknown)) = follows_known(
        app.accounts,
        search.walk.frontier,
        Seq::empty(),
        Seq::empty(),
    ) {
        law_layer_takes_in_every_list(taken.layer, taken.seen, cached, 0, id);
    }
}

} // verus!
