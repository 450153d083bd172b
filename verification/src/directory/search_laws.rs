//! What holds of every search: whom it tells and when, that it makes nobody a known
//! user, and that it comes to an end.

use crate::directory::app_discovery::{
    entries_of_profiles, fetched_lists, findings_spread, follow_findings, follows_known,
    law_findings_promote_nobody, profile_entries, profile_findings, same_but_graphs,
};
use crate::directory::app_ingest::freshness_at;
use crate::directory::app_state::AppContent;
use crate::directory::entry::{EntryContent, ProfileContent};
use crate::directory::records::EventRecordContent;
use crate::directory::search::{
    admitted, empty_layer, fresh_matches, with_radii, Admitted, EmitterContent, LayerDepth,
    SearchTally, TriggerContent, UpdateContent,
};
use crate::directory::search_graph::{
    next_depth, relays_to_ask, WalkContent, SEARCH_MAX_WRITE_RELAYS_PER_BATCH,
};
use crate::directory::search_match::{lemma_result_weak_order, result_lt};
use crate::directory::search_run::{
    all_admitted, batch_done, beyond, contacts_taken, follows_taken, lists_of, matched,
    outbox_next, plain, profiles_next, profiles_taken, radius_begun, radius_done, stored,
    tallied, with_update, write_lists_taken, write_profiles_taken, NeedContent, SearchContent,
    Stepped,
};
use crate::order::{lemma_same_elements, lemma_sorted_by};
use vstd::prelude::*;

verus! {

/// Whether updates bring no results.
pub open spec fn bring_nothing(updates: Seq<UpdateContent>) -> bool {
    forall|i: int| 0 <= i < updates.len() ==> (#[trigger] updates[i]).new_results.len() == 0
}

proof fn lemma_walking_on_is_silent(
    search: SearchContent,
    app: AppContent,
    updates: Seq<UpdateContent>,
)
    requires
        bring_nothing(updates),
    ensures
        bring_nothing(beyond(search, app, updates).updates),
{
}

/// A radius below the requested ones is walked through, and no match of it is told.
pub proof fn law_radius_below_the_window_is_silent(
    search: SearchContent,
    app: AppContent,
    cancelled: bool,
    now: i64,
    depth: LayerDepth,
)
    requires
        next_depth(search.walk) == Some(depth),
        depth.hop < search.radius_start,
    ensures
        bring_nothing(radius_begun(search, app, cancelled, now).updates),
        !(radius_begun(search, app, cancelled, now).need is Profiles),
{
    let started = plain(
        search.emitter,
        TriggerContent::RadiusStarted { radius: depth.reported },
    );
    let begun = SearchContent {
        emitter: EmitterContent {
            radii: with_radii(search.emitter.radii, search.walk.frontier, depth.reported),
            ..search.emitter
        },
        depth,
        now,
        missing: Seq::empty(),
        ..search
    };
    lemma_walking_on_is_silent(begun, app, seq![started]);
}

proof fn lemma_matches_carry_profiles(
    emitted: Set<Seq<char>>,
    records: Seq<EntryContent>,
    radius: u8,
    query: Seq<char>,
)
    requires
        forall|i: int| 0 <= i < records.len() ==> (#[trigger] records[i]).profile is Some,
    ensures
        forall|i: int|
            0 <= i < fresh_matches(emitted, records, radius, query).results.len() ==> (
            #[trigger] fresh_matches(emitted, records, radius, query).results[i]).profile is Some,
    decreases records.len(),
{
    if records.len() > 0 {
        assert forall|i: int| 0 <= i < records.drop_last().len() implies (
        #[trigger] records.drop_last()[i]).profile is Some by {
            assert(records[i].profile is Some);
        }
        lemma_matches_carry_profiles(emitted, records.drop_last(), radius, query);
        assert(records[records.len() - 1].profile is Some);
    }
}

/// While the own relays of accounts are still to be asked, nobody without a profile
/// is told: an account is one result, however many relays it took to find it.
pub proof fn law_accounts_without_a_profile_wait(
    search: SearchContent,
    app: AppContent,
    profiles: Seq<(Seq<char>, ProfileContent)>,
    cancelled: bool,
)
    requires
        profiles_taken(search, app, profiles, cancelled).need is WriteLists,
    ensures
        forall|i: int, j: int|
            0 <= i < profiles_taken(search, app, profiles, cancelled).updates.len() && 0 <= j
                < profiles_taken(search, app, profiles, cancelled).updates[i].new_results.len()
                ==> (#[trigger] profiles_taken(
                search,
                app,
                profiles,
                cancelled,
            ).updates[i].new_results[j]).profile is Some,
{
    let fetched = profile_entries(app, search.batch, profiles);
    let keep = |r: EntryContent| r.profile is Some;
    let resolved = fetched.filter(keep);
    let radius = search.depth.reported;
    let fresh = fresh_matches(search.emitter.emitted, resolved, radius, search.query);
    assert forall|i: int| 0 <= i < resolved.len() implies (#[trigger] resolved[i]).profile is Some by {
        fetched.lemma_filter_pred(keep, i);
    }
    lemma_matches_carry_profiles(search.emitter.emitted, resolved, radius, search.query);
    lemma_result_weak_order();
    let ordered = crate::order::sorted_by(fresh.results, result_lt());
    lemma_sorted_by(fresh.results, result_lt());
    lemma_same_elements(ordered, fresh.results);
    assert forall|j: int| 0 <= j < ordered.len() implies (#[trigger] ordered[j]).profile is Some by {
        assert(ordered.contains(ordered[j]));
        assert(fresh.results.contains(ordered[j]));
    }
}

/// Going on with a search, once an answer was taken over, changes nothing of the app.
proof fn lemma_going_on_keeps_the_app(
    search: SearchContent,
    app: AppContent,
    cancelled: bool,
    updates: Seq<UpdateContent>,
)
    ensures
        beyond(search, app, updates).app == app,
        profiles_next(search, app, cancelled, updates).app == app,
        batch_done(search, app, cancelled, updates).app == app,
{
    lemma_beyond_keeps_the_app(search, app, updates);
    lemma_beyond_keeps_the_app(SearchContent { missing: Seq::empty(), ..search }, app, updates);
    let tally = search.emitter.tally;
    let left = search.pending.filter(|r: EntryContent| r.profile is None).len();
    let (after, update) = matched(
        tallied(search, SearchTally { unresolved: (tally.unresolved + left) as usize, ..tally }),
        search.pending,
    );
    lemma_beyond_keeps_the_app(
        SearchContent { missing: Seq::empty(), pending: Seq::empty(), ..after },
        app,
        with_update(updates, update),
    );
}

proof fn lemma_follows_keep_the_app(
    search: SearchContent,
    app: AppContent,
    lists: Seq<Seq<Seq<char>>>,
    updates: Seq<UpdateContent>,
)
    ensures
        follows_taken(search, app, lists, updates).app == app,
{
}

proof fn lemma_beyond_keeps_the_app(
    search: SearchContent,
    app: AppContent,
    updates: Seq<UpdateContent>,
)
    ensures
        beyond(search, app, updates).app == app,
{
    if search.depth.hop != search.radius_end {
        let taken = if search.depth.hop == 0 {
            admitted(empty_layer(), search.walk.seen, search.close)
        } else {
            Admitted { layer: empty_layer(), seen: search.walk.seen, all: true }
        };
        let opened = SearchContent {
            layer: taken.layer,
            walk: WalkContent { seen: taken.seen, ..search.walk },
            ..search
        };
        if let Ok((cached, unknown)) = follows_known(
            app.accounts,
            search.walk.frontier,
            Seq::empty(),
            Seq::empty(),
        ) {
            lemma_follows_keep_the_app(
                SearchContent { unknown, ..opened },
                app,
                cached,
                updates,
            );
        }
    }
}

/// Beginning a radius changes nothing of the app.
pub proof fn law_beginning_a_radius_keeps_the_app(
    search: SearchContent,
    app: AppContent,
    cancelled: bool,
    began: i64,
)
    ensures
        radius_begun(search, app, cancelled, began).app == app,
{
    assert forall|other: SearchContent, updates: Seq<UpdateContent>|
        (#[trigger] beyond(other, app, updates)).app == app by {
        lemma_beyond_keeps_the_app(other, app, updates);
    }
    assert forall|other: SearchContent, updates: Seq<UpdateContent>|
        (#[trigger] profiles_next(other, app, cancelled, updates)).app == app by {
        lemma_going_on_keeps_the_app(other, app, cancelled, updates);
    }
}

/// What the searcher's relays know of profiles makes nobody a known user.
pub proof fn law_profiles_promote_nobody(
    search: SearchContent,
    app: AppContent,
    profiles: Seq<(Seq<char>, ProfileContent)>,
    cancelled: bool,
)
    ensures
        same_but_graphs(
            app.accounts,
            profiles_taken(search, app, profiles, cancelled).app.accounts,
        ),
{
    let resolved = profile_entries(app, search.batch, profiles).filter(
        |r: EntryContent| r.profile is Some,
    );
    let kept_app = stored(app, profile_findings(resolved, search.now)).0;
    law_findings_promote_nobody(app.accounts, profile_findings(resolved, search.now));
    assert forall|other: SearchContent, updates: Seq<UpdateContent>|
        (#[trigger] batch_done(other, kept_app, cancelled, updates)).app == kept_app by {
        lemma_going_on_keeps_the_app(other, kept_app, cancelled, updates);
    }
}

/// What the own relays of accounts know of their profiles makes nobody a known user.
proof fn lemma_outbox_promotes_nobody(search: SearchContent, app: AppContent, cancelled: bool)
    ensures
        same_but_graphs(app.accounts, outbox_next(search, app, cancelled).app.accounts),
{
    let kept_app = stored(app, profile_findings(search.outboxed, search.now)).0;
    law_findings_promote_nobody(app.accounts, profile_findings(search.outboxed, search.now));
    assert forall|other: SearchContent, updates: Seq<UpdateContent>|
        (#[trigger] batch_done(other, kept_app, cancelled, updates)).app == kept_app by {
        lemma_going_on_keeps_the_app(other, kept_app, cancelled, updates);
    }
}

/// What the own relays of accounts answer makes nobody a known user.
pub proof fn law_own_relays_promote_nobody(
    search: SearchContent,
    app: AppContent,
    profiles: Seq<(Seq<char>, ProfileContent)>,
    lists: Seq<(Seq<char>, Seq<Seq<char>>)>,
    cancelled: bool,
)
    ensures
        same_but_graphs(
            app.accounts,
            write_lists_taken(search, app, lists, cancelled).app.accounts,
        ),
        same_but_graphs(
            app.accounts,
            write_profiles_taken(search, app, profiles, cancelled).app.accounts,
        ),
{
    lemma_outbox_promotes_nobody(
        SearchContent { relays: relays_to_ask(lists), outboxed: Seq::empty(), ..search },
        app,
        cancelled,
    );
    lemma_outbox_promotes_nobody(
        SearchContent {
            relays: if search.relays.len() > 0 {
                search.relays.drop_first()
            } else {
                search.relays
            },
            outboxed: search.outboxed + entries_of_profiles(app, profiles),
            ..search
        },
        app,
        cancelled,
    );
}

/// Contact lists make nobody a known user.
pub proof fn law_contact_lists_promote_nobody(
    search: SearchContent,
    app: AppContent,
    records: Seq<EventRecordContent>,
    now: u64,
)
    ensures
        same_but_graphs(app.accounts, contacts_taken(search, app, records, now).app.accounts),
{
    let fetched = fetched_lists(search.batch, records, freshness_at(app, now));
    law_findings_promote_nobody(app.accounts, follow_findings(fetched));
    lemma_follows_keep_the_app(
        search,
        AppContent {
            accounts: findings_spread(app.accounts, follow_findings(fetched)).0,
            ..app
        },
        lists_of(fetched),
        Seq::empty(),
    );
}

/// How much of a search is left at most, the most significant first.
pub struct Left {
    pub radii: int,
    /// To begin a radius, to match its accounts, or to walk on from them.
    pub phase: int,
    pub missing: nat,
    /// What is left to ask about one batch.
    pub asks: nat,
    pub unknown: nat,
}

/// How many radii of a search are left at most.
pub open spec fn radii_left(search: SearchContent) -> int {
    if next_depth(search.walk) is None {
        0
    } else {
        search.radius_end + 1 - search.walk.radius
    }
}

/// How much of a search is left while it needs something.
pub open spec fn left(search: SearchContent, need: NeedContent) -> Left {
    Left {
        radii: radii_left(search),
        phase: match need {
            NeedContent::NextRadius => 2,
            NeedContent::ContactLists { .. } => 0,
            _ => 1,
        },
        missing: search.missing.len(),
        asks: match need {
            NeedContent::Profiles { .. } => (SEARCH_MAX_WRITE_RELAYS_PER_BATCH + 2) as nat,
            NeedContent::WriteLists { .. } => (SEARCH_MAX_WRITE_RELAYS_PER_BATCH + 1) as nat,
            NeedContent::WriteProfiles { .. } => search.relays.len(),
            _ => 0,
        },
        unknown: search.unknown.len(),
    }
}

/// Whether less is left.
pub open spec fn less(after: Left, before: Left) -> bool {
    ||| after.radii < before.radii
    ||| after.radii == before.radii && (after.phase < before.phase || after.phase == before.phase
        && (after.missing < before.missing || after.missing == before.missing && (after.asks
        < before.asks || after.asks == before.asks && after.unknown < before.unknown)))
}

/// Whether the search of the graph is over, or less of it is left than before.
pub open spec fn comes_closer(after: Stepped, before: Left) -> bool {
    ||| after.need is Discovery
    ||| after.need is Failed
    ||| less(left(after.search, after.need), before)
}

/// Ending a radius leaves fewer of them.
proof fn lemma_radius_done_comes_closer(
    search: SearchContent,
    app: AppContent,
    updates: Seq<UpdateContent>,
    before: Left,
)
    requires
        search.walk.radius_end == search.radius_end,
        before.radii == radii_left(search),
    ensures
        comes_closer(radius_done(search, app, updates), before),
{
}

/// Taking in contact lists ends the radius or asks for fewer of them.
proof fn lemma_follows_come_closer(
    search: SearchContent,
    app: AppContent,
    lists: Seq<Seq<Seq<char>>>,
    updates: Seq<UpdateContent>,
    before: Left,
)
    requires
        search.walk.radius_end == search.radius_end,
        before.radii == radii_left(search),
        before.phase > 0 || before.phase == 0 && before.missing == search.missing.len()
            && before.asks == 0 && before.unknown == search.unknown.len(),
    ensures
        comes_closer(follows_taken(search, app, lists, updates), before),
{
    let taken = all_admitted(search.layer, search.walk.seen, lists);
    let after = SearchContent {
        layer: taken.layer,
        walk: WalkContent { seen: taken.seen, ..search.walk },
        ..search
    };
    lemma_radius_done_comes_closer(after, app, updates, before);
}

/// Walking on from a matched layer ends the radius or asks for contact lists.
proof fn lemma_beyond_comes_closer(
    search: SearchContent,
    app: AppContent,
    updates: Seq<UpdateContent>,
    before: Left,
)
    requires
        search.walk.radius_end == search.radius_end,
        before.radii == radii_left(search),
        before.phase > 0,
    ensures
        comes_closer(beyond(search, app, updates), before),
{
    if search.depth.hop == search.radius_end {
        lemma_radius_done_comes_closer(
            SearchContent { layer: empty_layer(), unknown: Seq::empty(), ..search },
            app,
            updates,
            before,
        );
    } else {
        let taken = if search.depth.hop == 0 {
            admitted(empty_layer(), search.walk.seen, search.close)
        } else {
            Admitted { layer: empty_layer(), seen: search.walk.seen, all: true }
        };
        let opened = SearchContent {
            layer: taken.layer,
            walk: WalkContent { seen: taken.seen, ..search.walk },
            ..search
        };
        if let Ok((cached, unknown)) = follows_known(
            app.accounts,
            search.walk.frontier,
            Seq::empty(),
            Seq::empty(),
        ) {
            lemma_follows_come_closer(
                SearchContent { unknown, ..opened },
                app,
                cached,
                updates,
                before,
            );
        }
    }
}

/// Asking for the profiles that are missing leaves fewer, or the layer is left.
proof fn lemma_profiles_next_comes_closer(
    search: SearchContent,
    app: AppContent,
    cancelled: bool,
    updates: Seq<UpdateContent>,
    before: Left,
)
    requires
        search.walk.radius_end == search.radius_end,
        before.radii == radii_left(search),
        before.phase == 2 || before.phase == 1 && before.missing == search.missing.len(),
    ensures
        comes_closer(profiles_next(search, app, cancelled, updates), before),
{
    lemma_beyond_comes_closer(
        SearchContent { missing: Seq::empty(), ..search },
        app,
        updates,
        before,
    );
}

/// Ending a batch goes on to what is missing, or beyond.
proof fn lemma_batch_done_comes_closer(
    search: SearchContent,
    app: AppContent,
    cancelled: bool,
    updates: Seq<UpdateContent>,
    before: Left,
)
    requires
        search.walk.radius_end == search.radius_end,
        before.radii == radii_left(search),
        before.phase == 1,
        before.missing == search.missing.len(),
    ensures
        comes_closer(batch_done(search, app, cancelled, updates), before),
{
    let tally = search.emitter.tally;
    let left = search.pending.filter(|r: EntryContent| r.profile is None).len();
    let (after, update) = matched(
        tallied(search, SearchTally { unresolved: (tally.unresolved + left) as usize, ..tally }),
        search.pending,
    );
    lemma_profiles_next_comes_closer(
        SearchContent { pending: Seq::empty(), ..after },
        app,
        cancelled,
        with_update(updates, update),
        before,
    );
}

/// Asking the next of the accounts' own relays leaves fewer of them, or the batch ends.
proof fn lemma_outbox_comes_closer(
    search: SearchContent,
    app: AppContent,
    cancelled: bool,
    before: Left,
)
    requires
        search.walk.radius_end == search.radius_end,
        before.radii == radii_left(search),
        before.phase == 1,
        before.missing == search.missing.len(),
        search.relays.len() > 0 ==> search.relays.len() < before.asks,
    ensures
        comes_closer(outbox_next(search, app, cancelled), before),
{
    let tally = search.emitter.tally;
    let counted = tallied(
        search,
        SearchTally {
            from_write_relays: (tally.from_write_relays + search.outboxed.len()) as usize,
            ..tally
        },
    );
    lemma_batch_done_comes_closer(
        SearchContent {
            pending: crate::directory::app_discovery::all_refilled(
                search.pending,
                search.outboxed,
            ),
            outboxed: Seq::empty(),
            ..counted
        },
        stored(app, profile_findings(search.outboxed, search.now)).0,
        cancelled,
        Seq::empty(),
        before,
    );
}

/// Beginning a radius brings a search closer to its end.
pub proof fn law_begun_radius_comes_closer(
    search: SearchContent,
    app: AppContent,
    cancelled: bool,
    began: i64,
)
    requires
        search.walk.radius_end == search.radius_end,
    ensures
        comes_closer(
            radius_begun(search, app, cancelled, began),
            left(search, NeedContent::NextRadius),
        ),
{
    let before = left(search, NeedContent::NextRadius);
    assert forall|other: SearchContent, updates: Seq<UpdateContent>|
        other.walk == search.walk && other.radius_end == search.radius_end implies comes_closer(
        #[trigger] beyond(other, app, updates),
        before,
    ) by {
        lemma_beyond_comes_closer(other, app, updates, before);
    }
    assert forall|other: SearchContent, updates: Seq<UpdateContent>|
        other.walk == search.walk && other.radius_end == search.radius_end implies comes_closer(
        #[trigger] profiles_next(other, app, cancelled, updates),
        before,
    ) by {
        lemma_profiles_next_comes_closer(other, app, cancelled, updates, before);
    }
}

/// An answer about profiles brings a search closer to its end.
pub proof fn law_profiles_come_closer(
    search: SearchContent,
    app: AppContent,
    account_ids: Seq<Seq<char>>,
    profiles: Seq<(Seq<char>, ProfileContent)>,
    cancelled: bool,
)
    requires
        search.walk.radius_end == search.radius_end,
    ensures
        comes_closer(
            profiles_taken(search, app, profiles, cancelled),
            left(search, NeedContent::Profiles { account_ids }),
        ),
{
    let before = left(search, NeedContent::Profiles { account_ids });
    let resolved = profile_entries(app, search.batch, profiles).filter(
        |r: EntryContent| r.profile is Some,
    );
    let kept_app = stored(app, profile_findings(resolved, search.now)).0;
    assert forall|other: SearchContent, updates: Seq<UpdateContent>|
        other.walk == search.walk && other.radius_end == search.radius_end && other.missing
            == search.missing implies comes_closer(
        #[trigger] batch_done(other, kept_app, cancelled, updates),
        before,
    ) by {
        lemma_batch_done_comes_closer(other, kept_app, cancelled, updates, before);
    }
}

/// An answer about the relay lists of accounts, or of one of their own relays, brings a
/// search closer to its end.
pub proof fn law_own_relays_come_closer(
    search: SearchContent,
    app: AppContent,
    account_ids: Seq<Seq<char>>,
    relay: Seq<char>,
    profiles: Seq<(Seq<char>, ProfileContent)>,
    lists: Seq<(Seq<char>, Seq<Seq<char>>)>,
    cancelled: bool,
)
    requires
        search.walk.radius_end == search.radius_end,
    ensures
        comes_closer(
            write_lists_taken(search, app, lists, cancelled),
            left(search, NeedContent::WriteLists { account_ids }),
        ),
        comes_closer(
            write_profiles_taken(search, app, profiles, cancelled),
            left(search, NeedContent::WriteProfiles { relay, account_ids }),
        ),
{
    lemma_outbox_comes_closer(
        SearchContent { relays: relays_to_ask(lists), outboxed: Seq::empty(), ..search },
        app,
        cancelled,
        left(search, NeedContent::WriteLists { account_ids }),
    );
    lemma_outbox_comes_closer(
        SearchContent {
            relays: if search.relays.len() > 0 {
                search.relays.drop_first()
            } else {
                search.relays
            },
            outboxed: search.outboxed + entries_of_profiles(app, profiles),
            ..search
        },
        app,
        cancelled,
        left(search, NeedContent::WriteProfiles { relay, account_ids }),
    );
}

/// An answer about contact lists brings a search closer to its end.
pub proof fn law_contact_lists_come_closer(
    search: SearchContent,
    app: AppContent,
    account_ids: Seq<Seq<char>>,
    records: Seq<EventRecordContent>,
    now: u64,
)
    requires
        search.walk.radius_end == search.radius_end,
    ensures
        comes_closer(
            contacts_taken(search, app, records, now),
            left(search, NeedContent::ContactLists { account_ids }),
        ),
{
    let fetched = fetched_lists(search.batch, records, freshness_at(app, now));
    lemma_follows_come_closer(
        search,
        AppContent {
            accounts: findings_spread(app.accounts, follow_findings(fetched)).0,
            ..app
        },
        lists_of(fetched),
        Seq::empty(),
        left(search, NeedContent::ContactLists { account_ids }),
    );
}

} // verus!
