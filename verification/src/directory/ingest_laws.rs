//! What is shown of an identity after something was learned of it.

use crate::directory::app_entry::{
    cached_entry, empty_entry, entry_named, entry_of, hydrated, hydrated_option, is_canonical,
    is_written_form, lemma_cached_entry_keyed, lossy_npub, newer_entry, normalized_ids, recency,
    routed, Gate,
};
use crate::directory::app_ingest::{ingested, whole, with_list_event, IngestContent};
use crate::directory::app_laws::{
    lemma_caches_show, lemma_canonical_is_shown, lemma_gates_agree, lemma_no_follows,
    lemma_shown_alike, lemma_stored_cached, reads_well, same_roster, shows_alike, users_kept,
    well_kept,
};
use crate::directory::app_remember::{
    saved_entry, with_edges, with_follows, with_newer_profile, with_observed_lists,
    with_relay_lists, with_search_edges, with_user, FollowListContent,
};
use crate::directory::app_save::{
    caches_show, live_over_caches, newer_package, package_of_option, public_entry, settled_entry,
    stored_everywhere,
};
use crate::directory::app_state::{
    is_local, lemma_account_position, signs_now, standing, AccountContent, AppContent,
};
use crate::directory::cache::{find, known_follows};
use crate::directory::entry::{EntryContent, ProfileContent};
use crate::directory::records::{
    refreshed, saturating_sum, RelayListStatusContent, KIND_MARMOT_INBOX_RELAY_LIST, KIND_NIP65_RELAY_LIST,
};
use crate::error::{ErrorContent, MissingRelayListKind};
use crate::order::{
    extend_unique, is_ascending, lemma_ascending_set_exists, lemma_extend_unique,
};
use crate::text::public_key_hex;
use vstd::prelude::*;

verus! {

/// What is read of an identity after an entry of it was saved that is no less recent
/// than what was read of it before.
proof fn lemma_saved_is_shown(
    app: AppContent,
    id: Seq<char>,
    shown: Option<EntryContent>,
    entry: EntryContent,
    reason: Seq<char>,
    now: i64,
)
    requires
        well_kept(app),
        public_key_hex(id) == Some(id),
        entry_of(app, id, Gate::Inspect) == Ok::<Option<EntryContent>, ErrorContent>(shown),
        entry.account_id_hex == id,
        hydrated(app, entry, Gate::Inspect) is Ok,
        is_canonical(hydrated(app, entry, Gate::Inspect)->Ok_0),
        shown is Some ==> recency(shown->0) <= recency(
            hydrated(app, entry, Gate::Inspect)->Ok_0,
        ),
        saved_entry(app, entry, reason, now) is Ok,
    ensures
        ({
            let after = saved_entry(app, entry, reason, now)->Ok_0;
            let proposed = hydrated(app, entry, Gate::Inspect)->Ok_0;
            let read = entry_of(after, id, Gate::Inspect);
            &&& read is Ok && read->Ok_0 is Some
            &&& read->Ok_0->0.account_id_hex == id
            &&& read->Ok_0->0.profile == proposed.profile
            &&& read->Ok_0->0.follows == proposed.follows
            &&& read->Ok_0->0.follow_source_relays == proposed.follow_source_relays
            &&& read->Ok_0->0.relay_lists == proposed.relay_lists
        }),
{
    let gate = Gate::Given(standing(app, id) is Admitted);
    lemma_cached_entry_keyed(app.accounts, id);
    let cached = cached_entry(app.accounts, id)->Ok_0;
    let stored = find(app.shared, id);
    lemma_gates_agree(app, entry, id);
    if cached is Some {
        lemma_gates_agree(app, cached->0, id);
    }
    if stored is Some {
        assert(app.shared[id].account_id_hex == id);
        lemma_gates_agree(app, stored->0, id);
    }
    let proposed = hydrated(app, entry, gate)->Ok_0;
    let shared = hydrated_option(app, stored, gate)->Ok_0;
    let live = live_over_caches(
        app,
        app.accounts,
        id,
        gate,
        newer_package(proposed.key_package, package_of_option(shared)),
    )->Ok_0;
    let settled = settled_entry(proposed, shared, live);
    assert(shared is Some ==> shown is Some && recency(shared->0) <= recency(shown->0));
    assert(newer_entry(Some(proposed), shared) == Some(proposed));
    assert(settled.account_id_hex == id && is_canonical(settled));
    let after = saved_entry(app, entry, reason, now)->Ok_0;
    assert(find(after.shared, id) == Some(public_entry(settled)));
    assert(shows_alike(after, app));
    lemma_shown_alike(after, app, settled, Gate::Inspect);
    lemma_shown_alike(after, app, public_entry(settled), Gate::Inspect);
    lemma_canonical_is_shown(after, settled, Gate::Inspect);
    lemma_canonical_is_shown(after, public_entry(settled), Gate::Inspect);
    lemma_gates_agree(app, settled, id);
    lemma_gates_agree(app, public_entry(settled), id);
    if find(app.shared, id) == Some(public_entry(settled)) && caches_show(
        app,
        app.accounts,
        id,
        gate,
        settled,
    ) {
        lemma_caches_show(app, app.accounts, id, gate, settled);
    } else {
        lemma_stored_cached(app.accounts, settled, reason, now, id);
    }
    crate::order::lemma_ascending_set(
        proposed.follow_source_relays,
        proposed.follow_source_relays,
    );
}

/// What is read of an identity after relay lists were saved for it.
proof fn lemma_saved_lists_are_shown(
    app: AppContent,
    id: Seq<char>,
    shown: Option<EntryContent>,
    lists: RelayListStatusContent,
    now: i64,
)
    requires
        well_kept(app),
        public_key_hex(id) == Some(id),
        entry_of(app, id, Gate::Inspect) == Ok::<Option<EntryContent>, ErrorContent>(shown),
        shown is Some ==> is_canonical(shown->0),
        saved_entry(
            app,
            EntryContent { relay_lists: lists, ..base_of(app, id, shown) },
            "directory"@,
            now,
        ) is Ok,
    ensures
        ({
            let base = base_of(app, id, shown);
            let after = saved_entry(
                app,
                EntryContent { relay_lists: lists, ..base },
                "directory"@,
                now,
            )->Ok_0;
            let read = entry_of(after, id, Gate::Inspect);
            &&& read is Ok && read->Ok_0 is Some
            &&& read->Ok_0->0.profile == base.profile
            &&& read->Ok_0->0.follows == base.follows
            &&& read->Ok_0->0.relay_lists == routed(app, id, lists)
            &&& shown is Some ==> base == shown->0 && routed(app, id, base.relay_lists)
                == base.relay_lists
        }),
{
    let base = base_of(app, id, shown);
    let entry = EntryContent { relay_lists: lists, ..base };
    lemma_cached_entry_keyed(app.accounts, id);
    if app.shared.dom().contains(id) {
        assert(app.shared[id].account_id_hex == id);
    }
    assert(base.account_id_hex == id);
    lemma_gates_agree(app, entry, id);
    assert(hydrated(app, entry, Gate::Inspect) is Ok);
    lemma_no_follows();
    lemma_ascending_set_exists(base.follow_source_relays);
    lemma_saved_is_shown(app, id, shown, entry, "directory"@, now);
}

/// What is known of an identity, or an entry that says nothing of it.
pub open spec fn base_of(app: AppContent, id: Seq<char>, shown: Option<EntryContent>) ->
    EntryContent {
    match shown {
        Some(entry) => entry,
        None => empty_entry(app, id),
    }
}

proof fn lemma_refreshed_lacks(lists: RelayListStatusContent)
    ensures
        lists.nip65.relays.len() > 0 ==> !refreshed(lists).missing.contains(
            MissingRelayListKind::Nip65,
        ),
        lists.inbox.relays.len() > 0 ==> !refreshed(lists).missing.contains(
            MissingRelayListKind::Inbox,
        ),
{
}

/// After an event with an inbox relay list was taken in, that list is shown as the
/// inbox list of its author, and the relays that delivered it are known. The author's
/// route, profile and follows are shown as before.
pub proof fn law_ingested_inbox_list_is_shown(app: AppContent, event: IngestContent, now: u64)
    requires
        well_kept(app),
        is_written_form(event.record.event.pubkey),
        public_key_hex(event.record.event.pubkey) is Some,
        event.record.event.created_at <= saturating_sum(now, app.config.directory_max_future_skew),
        event.record.event.kind == KIND_MARMOT_INBOX_RELAY_LIST,
        event.record.relay_list is Some,
        reads_well(entry_named(app, event.record.event.pubkey, Gate::Inspect)),
        ingested(app, event, now).1 is None,
    ensures
        ({
            let earlier = entry_named(app, event.record.event.pubkey, Gate::Inspect);
            let later = entry_named(
                ingested(app, event, now).0,
                event.record.event.pubkey,
                Gate::Inspect,
            );
            &&& later is Ok && later->Ok_0 is Some
            &&& later->Ok_0->0.relay_lists.inbox == event.record.relay_list->0
            &&& forall|relay: Seq<char>| #[trigger]
                event.record.endpoints.contains(relay)
                    ==> later->Ok_0->0.relay_lists.bootstrap_relays.contains(relay)
            &&& event.record.relay_list->0.relays.len() > 0
                ==> !later->Ok_0->0.relay_lists.missing.contains(MissingRelayListKind::Inbox)
            &&& earlier->Ok_0 matches Some(before) ==> later->Ok_0->0.relay_lists.nip65
                == before.relay_lists.nip65 && later->Ok_0->0.profile == before.profile
                && later->Ok_0->0.follows == before.follows
        }),
{
    let id = public_key_hex(event.record.event.pubkey)->0;
    let shown = entry_of(app, id, Gate::Inspect)->Ok_0;
    let base = base_of(app, id, shown);
    let known = RelayListStatusContent {
        inbox: event.record.relay_list->0,
        bootstrap_relays: extend_unique(
            base.relay_lists.bootstrap_relays,
            event.record.endpoints,
        ),
        ..base.relay_lists
    };
    assert(ingested(app, event, now) == whole(
        app,
        with_list_event(app, id, event.record, now as i64),
    ));
    assert(with_list_event(app, id, event.record, now as i64) == saved_entry(
        app,
        EntryContent { relay_lists: refreshed(known), ..base },
        "directory"@,
        now as i64,
    ));
    lemma_saved_lists_are_shown(app, id, shown, refreshed(known), now as i64);
    lemma_extend_unique(base.relay_lists.bootstrap_relays, event.record.endpoints);
    lemma_refreshed_lacks(known);
    lemma_refreshed_lacks(
        RelayListStatusContent { nip65: routed(app, id, refreshed(known)).nip65, ..known },
    );
}

/// After an event with a NIP-65 list was taken in, that list is shown as the route of
/// its author, unless the author is an account of this device. The author's inbox list,
/// profile and follows are shown as before.
pub proof fn law_ingested_route_is_shown(app: AppContent, event: IngestContent, now: u64)
    requires
        well_kept(app),
        is_written_form(event.record.event.pubkey),
        public_key_hex(event.record.event.pubkey) is Some,
        !is_local(app, public_key_hex(event.record.event.pubkey)->0),
        event.record.event.created_at <= saturating_sum(now, app.config.directory_max_future_skew),
        event.record.event.kind == KIND_NIP65_RELAY_LIST,
        event.record.relay_list is Some,
        reads_well(entry_named(app, event.record.event.pubkey, Gate::Inspect)),
        ingested(app, event, now).1 is None,
    ensures
        ({
            let earlier = entry_named(app, event.record.event.pubkey, Gate::Inspect);
            let later = entry_named(
                ingested(app, event, now).0,
                event.record.event.pubkey,
                Gate::Inspect,
            );
            &&& later is Ok && later->Ok_0 is Some
            &&& later->Ok_0->0.relay_lists.nip65 == event.record.relay_list->0
            &&& forall|relay: Seq<char>| #[trigger]
                event.record.endpoints.contains(relay)
                    ==> later->Ok_0->0.relay_lists.bootstrap_relays.contains(relay)
            &&& event.record.relay_list->0.relays.len() > 0
                ==> !later->Ok_0->0.relay_lists.missing.contains(MissingRelayListKind::Nip65)
            &&& earlier->Ok_0 matches Some(before) ==> later->Ok_0->0.relay_lists.inbox
                == before.relay_lists.inbox && later->Ok_0->0.profile == before.profile
                && later->Ok_0->0.follows == before.follows
        }),
{
    let id = public_key_hex(event.record.event.pubkey)->0;
    let shown = entry_of(app, id, Gate::Inspect)->Ok_0;
    let base = base_of(app, id, shown);
    let known = RelayListStatusContent {
        nip65: event.record.relay_list->0,
        bootstrap_relays: extend_unique(
            base.relay_lists.bootstrap_relays,
            event.record.endpoints,
        ),
        ..base.relay_lists
    };
    assert(ingested(app, event, now) == whole(
        app,
        with_list_event(app, id, event.record, now as i64),
    ));
    assert(with_list_event(app, id, event.record, now as i64) == saved_entry(
        app,
        EntryContent { relay_lists: refreshed(known), ..base },
        "directory"@,
        now as i64,
    ));
    lemma_saved_lists_are_shown(app, id, shown, refreshed(known), now as i64);
    lemma_extend_unique(base.relay_lists.bootstrap_relays, event.record.endpoints);
    lemma_refreshed_lacks(known);
    lemma_account_position(app.accounts, id);
}

/// After relay lists were remembered for an identity, they are shown; of an account of
/// this device the inbox list is, its route is its own.
pub proof fn law_remembered_lists_are_shown(
    app: AppContent,
    id: Seq<char>,
    lists: RelayListStatusContent,
    now: i64,
)
    requires
        well_kept(app),
        public_key_hex(id) == Some(id),
        reads_well(entry_of(app, id, Gate::Inspect)),
        with_relay_lists(app, id, lists, now) is Ok,
    ensures
        ({
            let later = entry_of(with_relay_lists(app, id, lists, now)->Ok_0, id, Gate::Inspect);
            &&& later is Ok && later->Ok_0 is Some
            &&& later->Ok_0->0.relay_lists.inbox == lists.inbox
            &&& later->Ok_0->0.relay_lists.bootstrap_relays == lists.bootstrap_relays
            &&& !is_local(app, id) ==> later->Ok_0->0.relay_lists == lists
        }),
{
    let shown = entry_of(app, id, Gate::Inspect)->Ok_0;
    let base = base_of(app, id, shown);
    lemma_cached_entry_keyed(app.accounts, id);
    if app.shared.dom().contains(id) {
        assert(app.shared[id].account_id_hex == id);
    }
    assert((EntryContent { account_id_hex: id, relay_lists: lists, ..base }) == (EntryContent {
        relay_lists: lists,
        ..base
    }));
    lemma_saved_lists_are_shown(app, id, shown, lists, now);
    lemma_account_position(app.accounts, id);
}

/// After relay lists of an identity were observed, those of a stranger are shown as they
/// were observed. Of an account of this device the observed inbox list is shown, and its
/// route stays the one that was shown before.
pub proof fn law_observed_lists_are_shown(
    app: AppContent,
    text: Seq<char>,
    lists: RelayListStatusContent,
    now: i64,
)
    requires
        well_kept(app),
        is_written_form(text),
        public_key_hex(text) is Some,
        reads_well(entry_named(app, text, Gate::Inspect)),
        with_observed_lists(app, text, lists, now) is Ok,
    ensures
        ({
            let id = public_key_hex(text)->0;
            let earlier = entry_named(app, text, Gate::Inspect);
            let later = entry_named(
                with_observed_lists(app, text, lists, now)->Ok_0,
                text,
                Gate::Inspect,
            );
            &&& later is Ok && later->Ok_0 is Some
            &&& later->Ok_0->0.relay_lists.inbox == lists.inbox
            &&& !is_local(app, id) ==> later->Ok_0->0.relay_lists == lists
            &&& is_local(app, id) && earlier->Ok_0 is Some ==> later->Ok_0->0.relay_lists.nip65
                == earlier->Ok_0->0.relay_lists.nip65
        }),
{
    let id = public_key_hex(text)->0;
    let shown = entry_of(app, id, Gate::Inspect)->Ok_0;
    let base = base_of(app, id, shown);
    lemma_cached_entry_keyed(app.accounts, id);
    if app.shared.dom().contains(id) {
        assert(app.shared[id].account_id_hex == id);
    }
    if !is_local(app, id) {
        law_remembered_lists_are_shown(app, id, lists, now);
    } else {
        let own = refreshed(RelayListStatusContent { nip65: base.relay_lists.nip65, ..lists });
        assert((EntryContent { account_id_hex: id, relay_lists: own, ..base }) == (EntryContent {
            relay_lists: own,
            ..base
        }));
        lemma_saved_lists_are_shown(app, id, shown, own, now);
    }
}

/// An identity that became known is shown from then on, with all that was shown of it
/// before.
pub proof fn law_remembered_user_is_shown(
    app: AppContent,
    text: Seq<char>,
    now: i64,
)
    requires
        well_kept(app),
        is_written_form(text),
        public_key_hex(text) is Some,
        reads_well(entry_named(app, text, Gate::Inspect)),
        with_user(app, text, "directory"@, now) is Ok,
    ensures
        ({
            let earlier = entry_named(app, text, Gate::Inspect);
            let later = entry_named(
                with_user(app, text, "directory"@, now)->Ok_0,
                text,
                Gate::Inspect,
            );
            &&& later is Ok && later->Ok_0 is Some
            &&& earlier->Ok_0 matches Some(before) ==> later->Ok_0->0.profile == before.profile
                && later->Ok_0->0.follows == before.follows && later->Ok_0->0.relay_lists
                == before.relay_lists
        }),
{
    let id = public_key_hex(text)->0;
    let shown = entry_of(app, id, Gate::Inspect)->Ok_0;
    let base = base_of(app, id, shown);
    assert(base == (EntryContent { relay_lists: base.relay_lists, ..base }));
    lemma_saved_lists_are_shown(app, id, shown, base.relay_lists, now);
}

/// A profile that is newer than the shown one is shown as soon as it was offered.
pub proof fn law_newer_profile_is_shown(
    app: AppContent,
    text: Seq<char>,
    profile: ProfileContent,
    now: i64,
)
    requires
        well_kept(app),
        is_written_form(text),
        public_key_hex(text) is Some,
        reads_well(entry_named(app, text, Gate::Inspect)),
        with_newer_profile(app, text, profile, now) is Ok,
        entry_named(app, text, Gate::Inspect)->Ok_0 matches Some(before) ==> (
        before.profile matches Some(known) ==> known.created_at < profile.created_at),
    ensures
        ({
            let earlier = entry_named(app, text, Gate::Inspect);
            let later = entry_named(
                with_newer_profile(app, text, profile, now)->Ok_0,
                text,
                Gate::Inspect,
            );
            &&& later is Ok && later->Ok_0 is Some
            &&& later->Ok_0->0.profile == Some(profile)
            &&& earlier->Ok_0 matches Some(before) ==> later->Ok_0->0.follows == before.follows
                && later->Ok_0->0.relay_lists == before.relay_lists
        }),
{
    let id = public_key_hex(text)->0;
    let shown = entry_of(app, id, Gate::Inspect)->Ok_0;
    let base = match shown {
        Some(entry) => entry,
        None => empty_entry(app, text),
    };
    let entry = EntryContent { profile: Some(profile), ..base };
    lemma_cached_entry_keyed(app.accounts, id);
    if app.shared.dom().contains(id) {
        assert(app.shared[id].account_id_hex == id);
    }
    assert(with_newer_profile(app, text, profile, now) == saved_entry(
        app,
        entry,
        "directory"@,
        now,
    ));
    lemma_no_follows();
    lemma_ascending_set_exists(base.follow_source_relays);
    if shown is Some {
        lemma_gates_agree(app, entry, id);
        lemma_saved_is_shown(app, id, shown, entry, "directory"@, now);
    } else {
        lemma_saved_anew_is_shown(app, text, id, entry, now);
    }
}

/// What is read of an identity that nothing was known of, after an entry was saved for
/// one of its forms.
proof fn lemma_saved_anew_is_shown(
    app: AppContent,
    text: Seq<char>,
    id: Seq<char>,
    entry: EntryContent,
    now: i64,
)
    requires
        well_kept(app),
        public_key_hex(text) == Some(id),
        public_key_hex(id) == Some(id),
        entry_of(app, id, Gate::Inspect) == Ok::<Option<EntryContent>, ErrorContent>(None),
        entry == (EntryContent { profile: entry.profile, ..empty_entry(app, text) }),
        saved_entry(app, entry, "directory"@, now) is Ok,
    ensures
        ({
            let read = entry_of(
                saved_entry(app, entry, "directory"@, now)->Ok_0,
                id,
                Gate::Inspect,
            );
            &&& read is Ok && read->Ok_0 is Some
            &&& read->Ok_0->0.profile == entry.profile
        }),
{
    let gate = Gate::Given(standing(app, text) is Admitted);
    let after = saved_entry(app, entry, "directory"@, now)->Ok_0;
    let cached = cached_entry(app.accounts, id)->Ok_0;
    let stored = find(app.shared, id);
    assert(cached is None && stored is None);
    let proposed = hydrated(app, entry, gate)->Ok_0;
    lemma_no_follows();
    lemma_ascending_set_exists(entry.follow_source_relays);
    assert(proposed.account_id_hex == id && is_canonical(proposed));
    let live = live_over_caches(
        app,
        app.accounts,
        id,
        gate,
        newer_package(proposed.key_package, None),
    )->Ok_0;
    let settled = settled_entry(proposed, None, live);
    assert(is_canonical(settled));
    assert(after == stored_everywhere(app, settled, "directory"@, now));
    assert(shows_alike(after, app));
    lemma_shown_alike(after, app, settled, Gate::Inspect);
    lemma_shown_alike(after, app, public_entry(settled), Gate::Inspect);
    lemma_canonical_is_shown(after, settled, Gate::Inspect);
    lemma_canonical_is_shown(after, public_entry(settled), Gate::Inspect);
    lemma_stored_cached(app.accounts, settled, "directory"@, now, id);
}

proof fn lemma_edges_alike(
    accounts: Seq<AccountContent>,
    id: Seq<char>,
    npub: Seq<char>,
    follows: Seq<Seq<char>>,
)
    ensures
        ({
            let (after, fault) = with_edges(accounts, id, npub, follows);
            &&& same_roster(after, accounts)
            &&& forall|i: int|
                0 <= i < after.len() ==> (#[trigger] after[i]).cache.users
                    == accounts[i].cache.users && after[i].cache.closed == accounts[i].cache.closed
            &&& fault is None ==> forall|i: int|
                0 <= i < after.len() && signs_now(#[trigger] after[i]) ==> known_follows(
                    after[i].cache,
                    id,
                ) == Some(follows)
            &&& forall|i: int, other: Seq<char>|
                #![trigger known_follows(after[i].cache, other)]
                0 <= i < after.len() && other != id ==> known_follows(after[i].cache, other)
                    == known_follows(accounts[i].cache, other)
        }),
    decreases accounts.len(),
{
    if accounts.len() > 0 {
        let rest = accounts.drop_last();
        lemma_edges_alike(rest, id, npub, follows);
        let before = with_edges(rest, id, npub, follows).0;
        let after = with_edges(accounts, id, npub, follows).0;
        assert forall|i: int| 0 <= i < before.len() implies after[i] == #[trigger] before[i]
            && rest[i] == accounts[i] by {}
        assert forall|i: int| 0 <= i < after.len() implies #[trigger] after[i] == (
        AccountContent { cache: after[i].cache, ..accounts[i] }) by {
            if i < before.len() {
                assert(after[i] == before[i]);
            }
        }
        assert forall|i: int| 0 <= i < after.len() implies (#[trigger] after[i]).cache.users
            == accounts[i].cache.users && after[i].cache.closed == accounts[i].cache.closed by {
            if i < before.len() {
                assert(after[i] == before[i]);
            }
        }
        assert forall|i: int, other: Seq<char>|
            #![trigger known_follows(after[i].cache, other)]
            0 <= i < after.len() && other != id implies known_follows(after[i].cache, other)
            == known_follows(accounts[i].cache, other) by {
            if i < before.len() {
                assert(after[i] == before[i]);
                assert(known_follows(before[i].cache, other) == known_follows(
                    rest[i].cache,
                    other,
                ));
            }
        }
        if with_edges(accounts, id, npub, follows).1 is None {
            assert forall|i: int| 0 <= i < after.len() && signs_now(
                #[trigger] after[i],
            ) implies known_follows(after[i].cache, id) == Some(follows) by {
                if i < before.len() {
                    assert(after[i] == before[i]);
                }
            }
        }
    }
}

proof fn lemma_cached_alike(left: Seq<AccountContent>, right: Seq<AccountContent>, id: Seq<char>)
    requires
        same_roster(left, right),
        forall|i: int|
            0 <= i < left.len() ==> (#[trigger] left[i]).cache.users == right[i].cache.users
                && left[i].cache.closed == right[i].cache.closed,
    ensures
        cached_entry(left, id) == cached_entry(right, id),
    decreases left.len(),
{
    if left.len() > 0 {
        let l = left.drop_first();
        let r = right.drop_first();
        assert(left[0] == (AccountContent { cache: left[0].cache, ..right[0] }));
        assert forall|i: int| 0 <= i < l.len() implies #[trigger] l[i] == (AccountContent {
            cache: l[i].cache,
            ..r[i]
        }) && l[i].cache.users == r[i].cache.users && l[i].cache.closed == r[i].cache.closed by {
            assert(l[i] == left[i + 1] && r[i] == right[i + 1]);
            assert(left[i + 1] == (AccountContent { cache: left[i + 1].cache, ..right[i + 1] }));
        }
        lemma_cached_alike(l, r, id);
    }
}

/// A contact list that was learned is what every signed-in account's search graph knows
/// that the identity follows. What is known that others follow stays as it was.
pub proof fn law_learned_follows_enter_every_graph(
    accounts: Seq<AccountContent>,
    id: Seq<char>,
    npub: Seq<char>,
    follows: Seq<Seq<char>>,
    i: int,
    other: Seq<char>,
)
    requires
        with_edges(accounts, id, npub, follows).1 is None,
        0 <= i < accounts.len(),
        other != id,
    ensures
        ({
            let after = with_edges(accounts, id, npub, follows).0;
            &&& after.len() == accounts.len()
            &&& signs_now(accounts[i]) ==> known_follows(after[i].cache, id) == Some(follows)
            &&& known_follows(after[i].cache, other) == known_follows(accounts[i].cache, other)
            &&& after[i].cache.users == accounts[i].cache.users
        }),
{
    lemma_edges_alike(accounts, id, npub, follows);
    let after = with_edges(accounts, id, npub, follows).0;
    assert(after[i] == (AccountContent { cache: after[i].cache, ..accounts[i] }));
    assert(known_follows(after[i].cache, other) == known_follows(accounts[i].cache, other));
}

/// After a contact list of a known identity was learned, the identity is shown to follow
/// exactly who is on it. An identity of whom nothing was known stays unknown.
pub proof fn law_learned_follows_are_shown(
    app: AppContent,
    id: Seq<char>,
    list: FollowListContent,
    now: i64,
)
    requires
        well_kept(app),
        public_key_hex(id) == Some(id),
        reads_well(entry_of(app, id, Gate::Inspect)),
        normalized_ids(list.follows) == Ok::<Seq<Seq<char>>, ErrorContent>(list.follows),
        is_ascending(list.follows),
        with_search_edges(app, id, list, now).1 is None,
    ensures
        ({
            let earlier = entry_of(app, id, Gate::Inspect)->Ok_0;
            let later = entry_of(with_search_edges(app, id, list, now).0, id, Gate::Inspect);
            &&& later is Ok
            &&& earlier is None ==> later->Ok_0 is None
            &&& earlier matches Some(before) ==> later->Ok_0 is Some && later->Ok_0->0.follows
                == list.follows && later->Ok_0->0.profile == before.profile
                && later->Ok_0->0.relay_lists == before.relay_lists
        }),
{
    let npub = lossy_npub(id);
    let mid = AppContent { accounts: with_edges(app.accounts, id, npub, list.follows).0, ..app };
    lemma_edges_alike(app.accounts, id, npub, list.follows);
    lemma_cached_alike(mid.accounts, app.accounts, id);
    assert(shows_alike(mid, app));
    let cached = cached_entry(app.accounts, id)->Ok_0;
    if cached is Some {
        lemma_shown_alike(mid, app, cached->0, Gate::Inspect);
    }
    if app.shared.dom().contains(id) {
        lemma_shown_alike(mid, app, app.shared[id], Gate::Inspect);
    }
    assert(entry_of(mid, id, Gate::Inspect) == entry_of(app, id, Gate::Inspect));
    assert forall|i: int| 0 <= i < mid.accounts.len() implies users_kept(
        (#[trigger] mid.accounts[i]).cache.users,
    ) by {
        assert(users_kept(app.accounts[i].cache.users));
    }
    if let Some(before) = entry_of(app, id, Gate::Inspect)->Ok_0 {
        let entry = with_follows(before, list);
        lemma_cached_entry_keyed(mid.accounts, id);
        if mid.shared.dom().contains(id) {
            assert(mid.shared[id].account_id_hex == id);
        }
        lemma_gates_agree(mid, entry, id);
        lemma_ascending_set_exists(list.source_relays);
        lemma_saved_is_shown(mid, id, Some(before), entry, "directory"@, now);
    }
}

} // verus!
