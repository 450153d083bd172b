//! A search from its parameters to its last update, step by step: each step says
//! what to tell the one who asked and what to ask the relays for.

use crate::directory::app_discovery::{
    all_refilled, count_unresolved, entries_of_profiles, fetched_lists, findings_spread,
    follow_findings, follows_known, hydrated_ranked, ids_of, latest_follow_lists, local_record,
    locally_known, profile_entries, profile_findings, replace_resolved_profiles, split_by_profile,
    FindingContent,
};
use crate::directory::app_ingest::freshness_at;
use crate::directory::app_state::{AppContent, MarmotApp};
use crate::directory::cache::SEARCH_GRAPH_PROFILE_TTL_SECONDS;
use crate::directory::entry::{
    EntryContent, ProfileContent, UserDirectoryRecord, UserProfileMetadata,
};
use crate::directory::records::{EventRecordContent, RelayEventRecord};
use crate::directory::search::{
    admitted, empty_layer, fresh_matches, fresh_ranked, lemma_fresh_len, no_tally, told, wanted,
    with_radii, Admitted, EmitterContent, LayerContent, LayerDepth, NextLayer, RankedPubkey,
    SearchEmitter, SearchTally, SearchUpdateTrigger, TriggerContent, UpdateContent,
    UserSearchParams, UserSearchUpdate, SEARCH_PUBKEY_BATCH_SIZE,
};
use crate::directory::search_graph::{
    choose_write_relays, layer_completed, next_depth, relays_to_ask, AuthorsContent, GraphWalk,
    RelayAuthors, WalkContent,
};
use crate::directory::search_match::ProviderRank;
use crate::error::{AppError, ErrorContent};
use crate::text::{lowercased, trimmed};
use vstd::prelude::*;

verus! {

/// A search that runs.
pub struct UserSearchRun {
    params: UserSearchParams,
    query: String,
    walk: GraphWalk,
    emitter: SearchEmitter,
    depth: LayerDepth,
    now: i64,
    missing: Vec<String>,
    batch: Vec<String>,
    pending: Vec<UserDirectoryRecord>,
    outboxed: Vec<UserDirectoryRecord>,
    relays: Vec<RelayAuthors>,
    layer: NextLayer,
    unknown: Vec<String>,
}

/// The content of a [`UserSearchRun`].
#[verifier::ext_equal]
pub struct SearchContent {
    pub radius_start: u8,
    pub radius_end: u8,
    /// Accounts that count as close to the searcher.
    pub close: Seq<Seq<char>>,
    /// Who searches, and for what, as it was asked.
    pub searcher: Seq<char>,
    pub asked: Seq<char>,
    /// The query as it is compared.
    pub query: Seq<char>,
    pub walk: WalkContent,
    pub emitter: EmitterContent,
    /// The layer that is searched.
    pub depth: LayerDepth,
    /// When the search of that layer began.
    pub now: i64,
    /// The accounts of the layer whose profile was not asked for.
    pub missing: Seq<Seq<char>>,
    /// The accounts that relays are asked about.
    pub batch: Seq<Seq<char>>,
    /// The accounts of a batch that the searcher's relays know no profile of.
    pub pending: Seq<EntryContent>,
    /// What the own relays of those accounts answered.
    pub outboxed: Seq<EntryContent>,
    /// The relays of those accounts that were not asked.
    pub relays: Seq<AuthorsContent>,
    /// The layer beyond.
    pub layer: LayerContent,
    /// The accounts of the layer whose contact list was not asked for.
    pub unknown: Seq<Seq<char>>,
}

impl View for UserSearchRun {
    type V = SearchContent;

    closed spec fn view(&self) -> SearchContent {
        SearchContent {
            radius_start: self.params.radius_start,
            radius_end: self.params.radius_end,
            close: self.params.radius_one_seeds.deep_view(),
            searcher: self.params.searcher_account_id_hex@,
            asked: self.params.query@,
            query: self.query@,
            walk: self.walk@,
            emitter: self.emitter@,
            depth: self.depth,
            now: self.now,
            missing: self.missing.deep_view(),
            batch: self.batch.deep_view(),
            pending: self.pending.deep_view(),
            outboxed: self.outboxed.deep_view(),
            relays: self.relays.deep_view(),
            layer: self.layer.deep_view(),
            unknown: self.unknown.deep_view(),
        }
    }
}

/// What a search needs next.
#[derive(Debug)]
pub enum SearchNeed {
    /// The profiles of accounts, from the searcher's relays.
    Profiles { account_ids: Vec<String> },
    /// The relay lists of accounts, from the searcher's relays.
    WriteLists { account_ids: Vec<String> },
    /// The profiles of accounts, from a relay that they write to.
    WriteProfiles { relay: String, account_ids: Vec<String> },
    /// The contact lists of accounts, from the searcher's relays.
    ContactLists { account_ids: Vec<String> },
    /// The next radius is to begin.
    NextRadius,
    /// The graph was searched.
    Discovery,
    /// There is nothing to search for.
    Completion,
    /// The graph cannot be searched further.
    Failed(AppError),
}

/// The content of a [`SearchNeed`].
#[verifier::ext_equal]
pub enum NeedContent {
    Profiles { account_ids: Seq<Seq<char>> },
    WriteLists { account_ids: Seq<Seq<char>> },
    WriteProfiles { relay: Seq<char>, account_ids: Seq<Seq<char>> },
    ContactLists { account_ids: Seq<Seq<char>> },
    NextRadius,
    Discovery,
    Completion,
    Failed(ErrorContent),
}

impl DeepView for SearchNeed {
    type V = NeedContent;

    open spec fn deep_view(&self) -> NeedContent {
        match self {
            SearchNeed::Profiles { account_ids } => NeedContent::Profiles {
                account_ids: account_ids.deep_view(),
            },
            SearchNeed::WriteLists { account_ids } => NeedContent::WriteLists {
                account_ids: account_ids.deep_view(),
            },
            SearchNeed::WriteProfiles { relay, account_ids } => NeedContent::WriteProfiles {
                relay: relay@,
                account_ids: account_ids.deep_view(),
            },
            SearchNeed::ContactLists { account_ids } => NeedContent::ContactLists {
                account_ids: account_ids.deep_view(),
            },
            SearchNeed::NextRadius => NeedContent::NextRadius,
            SearchNeed::Discovery => NeedContent::Discovery,
            SearchNeed::Completion => NeedContent::Completion,
            SearchNeed::Failed(error) => NeedContent::Failed(error.deep_view()),
        }
    }
}

/// Where a search stands after a step: what the step told, and what is needed next.
#[verifier::ext_equal]
pub struct Stepped {
    pub search: SearchContent,
    pub app: AppContent,
    pub updates: Seq<UpdateContent>,
    pub need: NeedContent,
}

/// An update that brings no results.
pub open spec fn plain(emitter: EmitterContent, trigger: TriggerContent) -> UpdateContent {
    UpdateContent {
        trigger,
        new_results: Seq::empty(),
        total_result_count: emitter.total_result_count,
    }
}

/// Updates with one more, where there is one.
pub open spec fn with_update(updates: Seq<UpdateContent>, update: Option<UpdateContent>) -> Seq<
    UpdateContent,
> {
    match update {
        Some(update) => updates.push(update),
        None => updates,
    }
}

/// How many of some accounts one request asks for.
pub open spec fn batch_len(accounts: Seq<Seq<char>>) -> int {
    if accounts.len() < SEARCH_PUBKEY_BATCH_SIZE {
        accounts.len() as int
    } else {
        SEARCH_PUBKEY_BATCH_SIZE as int
    }
}

/// A layer after several lists of accounts were taken into it, until it is full.
pub open spec fn all_admitted(
    layer: LayerContent,
    seen: Set<Seq<char>>,
    lists: Seq<Seq<Seq<char>>>,
) -> Admitted
    decreases lists.len(),
{
    if lists.len() == 0 {
        Admitted { layer, seen, all: true }
    } else {
        let first = admitted(layer, seen, lists[0]);
        if first.all {
            all_admitted(first.layer, first.seen, lists.drop_first())
        } else {
            first
        }
    }
}

/// A radius that is done: it leads to the layer beyond.
pub open spec fn radius_done(
    search: SearchContent,
    app: AppContent,
    updates: Seq<UpdateContent>,
) -> Stepped {
    let radius = search.depth.reported;
    let told_cut = if search.layer.truncated {
        updates.push(plain(search.emitter, TriggerContent::RadiusTruncated { radius }))
    } else {
        updates
    };
    let updates = told_cut.push(
        plain(search.emitter, TriggerContent::RadiusCompleted { radius }),
    );
    let emptied = SearchContent { layer: empty_layer(), unknown: Seq::empty(), ..search };
    if next_depth(search.walk) is Some {
        Stepped {
            search: SearchContent {
                walk: layer_completed(
                    search.walk,
                    search.layer.candidates,
                    app.config.directory_search_fallback_seeds,
                ),
                ..emptied
            },
            app,
            updates,
            need: NeedContent::NextRadius,
        }
    } else {
        Stepped { search: emptied, app, updates, need: NeedContent::Discovery }
    }
}

/// Asks for the contact lists that are not known, or ends the radius.
pub open spec fn follows_next(
    search: SearchContent,
    app: AppContent,
    updates: Seq<UpdateContent>,
) -> Stepped {
    if search.unknown.len() == 0 {
        radius_done(search, app, updates)
    } else {
        let n = batch_len(search.unknown);
        let batch = search.unknown.take(n);
        Stepped {
            search: SearchContent { batch, unknown: search.unknown.skip(n), ..search },
            app,
            updates,
            need: NeedContent::ContactLists { account_ids: batch },
        }
    }
}

/// Takes in whom the accounts of a layer follow, as far as lists are known. A full
/// layer ends the radius.
pub open spec fn follows_taken(
    search: SearchContent,
    app: AppContent,
    lists: Seq<Seq<Seq<char>>>,
    updates: Seq<UpdateContent>,
) -> Stepped {
    let taken = all_admitted(search.layer, search.walk.seen, lists);
    let after = SearchContent {
        layer: taken.layer,
        walk: WalkContent { seen: taken.seen, ..search.walk },
        ..search
    };
    if taken.all {
        follows_next(after, app, updates)
    } else {
        radius_done(after, app, updates)
    }
}

/// Goes on to the layer beyond the one that was matched. Nothing lies beyond the
/// last one. Accounts that count as close to the searcher are taken in first.
pub open spec fn beyond(search: SearchContent, app: AppContent, updates: Seq<UpdateContent>)
    -> Stepped {
    if search.depth.hop == search.radius_end {
        radius_done(
            SearchContent { layer: empty_layer(), unknown: Seq::empty(), ..search },
            app,
            updates,
        )
    } else {
        let taken = if search.depth.hop == 0 {
            admitted(empty_layer(), search.walk.seen, search.close)
        } else {
            Admitted { layer: empty_layer(), seen: search.walk.seen, all: true }
        };
        let opened = SearchContent {
            layer: taken.layer,
            walk: WalkContent { seen: taken.seen, ..search.walk },
            ..search
        };
        match follows_known(app.accounts, search.walk.frontier, Seq::empty(), Seq::empty()) {
            Err(error) => Stepped {
                search: opened,
                app,
                updates,
                need: NeedContent::Failed(error),
            },
            Ok((cached, unknown)) => follows_taken(
                SearchContent { unknown, ..opened },
                app,
                cached,
                updates,
            ),
        }
    }
}

/// Asks for the profiles that are missing, or goes on. A search that nobody waits
/// for asks for no more.
pub open spec fn profiles_next(
    search: SearchContent,
    app: AppContent,
    cancelled: bool,
    updates: Seq<UpdateContent>,
) -> Stepped {
    if search.missing.len() == 0 || cancelled {
        beyond(SearchContent { missing: Seq::empty(), ..search }, app, updates)
    } else {
        let n = batch_len(search.missing);
        let batch = search.missing.take(n);
        Stepped {
            search: SearchContent { batch, missing: search.missing.skip(n), ..search },
            app,
            updates,
            need: NeedContent::Profiles { account_ids: batch },
        }
    }
}

/// A search after the matches among accounts of its layer were told.
pub open spec fn matched(search: SearchContent, records: Seq<EntryContent>) -> (
    SearchContent,
    Option<UpdateContent>,
) {
    let radius = search.depth.reported;
    let (emitter, update) = told(
        search.emitter,
        fresh_matches(search.emitter.emitted, records, radius, search.query),
        TriggerContent::ResultsFound { radius },
    );
    (SearchContent { emitter, ..search }, update)
}

/// A search with another tally.
pub open spec fn tallied(search: SearchContent, tally: SearchTally) -> SearchContent {
    SearchContent { emitter: EmitterContent { tally, ..search.emitter }, ..search }
}

/// The next radius begins: what this device knows is matched at once. A radius below
/// the requested ones is walked, and nobody of it is matched.
pub open spec fn radius_begun(
    search: SearchContent,
    app: AppContent,
    cancelled: bool,
    now: i64,
) -> Stepped {
    match next_depth(search.walk) {
        None => Stepped { search, app, updates: Seq::empty(), need: NeedContent::Discovery },
        Some(depth) => if cancelled {
            Stepped { search, app, updates: Seq::empty(), need: NeedContent::Discovery }
        } else {
            let started = plain(
                search.emitter,
                TriggerContent::RadiusStarted { radius: depth.reported },
            );
            let begun = SearchContent {
                emitter: EmitterContent {
                    radii: with_radii(
                        search.emitter.radii,
                        search.walk.frontier,
                        depth.reported,
                    ),
                    ..search.emitter
                },
                depth,
                now,
                missing: Seq::empty(),
                ..search
            };
            if depth.hop < search.radius_start {
                beyond(begun, app, seq![started])
            } else {
                match locally_known(app, search.walk.frontier, now, Seq::empty(), Seq::empty()) {
                    Err(error) => Stepped {
                        search: begun,
                        app,
                        updates: seq![started],
                        need: NeedContent::Failed(error),
                    },
                    Ok((known, missing)) => {
                        let tally = begun.emitter.tally;
                        let (after, update) = matched(
                            tallied(
                                begun,
                                SearchTally {
                                    from_cache: (tally.from_cache + known.len()) as usize,
                                    ..tally
                                },
                            ),
                            known,
                        );
                        profiles_next(
                            SearchContent { missing, ..after },
                            app,
                            cancelled,
                            with_update(seq![started], update),
                        )
                    },
                }
            }
        },
    }
}

/// The directory after findings were kept, and what kept one from being stored.
pub open spec fn stored(app: AppContent, findings: Seq<FindingContent>) -> (
    AppContent,
    Option<ErrorContent>,
) {
    if findings.len() == 0 {
        (app, None)
    } else {
        let (accounts, fault) = findings_spread(app.accounts, findings);
        (AppContent { accounts, ..app }, fault)
    }
}

/// Ends a batch: whoever is still without a profile is matched by identity alone.
pub open spec fn batch_done(
    search: SearchContent,
    app: AppContent,
    cancelled: bool,
    updates: Seq<UpdateContent>,
) -> Stepped {
    let tally = search.emitter.tally;
    let left = search.pending.filter(|r: EntryContent| r.profile is None).len();
    let (after, update) = matched(
        tallied(search, SearchTally { unresolved: (tally.unresolved + left) as usize, ..tally }),
        search.pending,
    );
    profiles_next(
        SearchContent { pending: Seq::empty(), ..after },
        app,
        cancelled,
        with_update(updates, update),
    )
}

/// The searcher's relays answered about a batch. Those with a profile are kept and
/// matched; for the others their own relays are asked before anything is told.
pub open spec fn profiles_taken(
    search: SearchContent,
    app: AppContent,
    profiles: Seq<(Seq<char>, ProfileContent)>,
    cancelled: bool,
) -> Stepped {
    let fetched = profile_entries(app, search.batch, profiles);
    let resolved = fetched.filter(|r: EntryContent| r.profile is Some);
    let pending = fetched.filter(|r: EntryContent| r.profile is None);
    let tally = search.emitter.tally;
    let counted = tallied(
        SearchContent { pending, ..search },
        SearchTally { from_relays: (tally.from_relays + resolved.len()) as usize, ..tally },
    );
    let (kept_app, fault) = stored(app, profile_findings(resolved, search.now));
    match fault {
        Some(error) => Stepped {
            search: counted,
            app: kept_app,
            updates: Seq::empty(),
            need: NeedContent::Failed(error),
        },
        None => {
            let (after, update) = matched(counted, resolved);
            let updates = with_update(Seq::empty(), update);
            if pending.len() > 0 && !cancelled {
                Stepped {
                    search: after,
                    app: kept_app,
                    updates,
                    need: NeedContent::WriteLists { account_ids: ids_of(pending) },
                }
            } else {
                batch_done(after, kept_app, cancelled, updates)
            }
        },
    }
}

/// Asks the next of the accounts' own relays, or takes over what they answered.
pub open spec fn outbox_next(search: SearchContent, app: AppContent, cancelled: bool) -> Stepped {
    if search.relays.len() > 0 {
        Stepped {
            search,
            app,
            updates: Seq::empty(),
            need: NeedContent::WriteProfiles {
                relay: search.relays[0].relay,
                account_ids: search.relays[0].authors,
            },
        }
    } else {
        let tally = search.emitter.tally;
        let counted = tallied(
            search,
            SearchTally {
                from_write_relays: (tally.from_write_relays + search.outboxed.len()) as usize,
                ..tally
            },
        );
        let (kept_app, fault) = stored(app, profile_findings(search.outboxed, search.now));
        match fault {
            Some(error) => Stepped {
                search: counted,
                app: kept_app,
                updates: Seq::empty(),
                need: NeedContent::Failed(error),
            },
            None => batch_done(
                SearchContent {
                    pending: all_refilled(search.pending, search.outboxed),
                    outboxed: Seq::empty(),
                    ..counted
                },
                kept_app,
                cancelled,
                Seq::empty(),
            ),
        }
    }
}

/// The accounts named the relays that they write to.
pub open spec fn write_lists_taken(
    search: SearchContent,
    app: AppContent,
    lists: Seq<(Seq<char>, Seq<Seq<char>>)>,
    cancelled: bool,
) -> Stepped {
    outbox_next(
        SearchContent { relays: relays_to_ask(lists), outboxed: Seq::empty(), ..search },
        app,
        cancelled,
    )
}

/// One of the accounts' own relays answered.
pub open spec fn write_profiles_taken(
    search: SearchContent,
    app: AppContent,
    profiles: Seq<(Seq<char>, ProfileContent)>,
    cancelled: bool,
) -> Stepped {
    outbox_next(
        SearchContent {
            relays: if search.relays.len() > 0 {
                search.relays.drop_first()
            } else {
                search.relays
            },
            outboxed: search.outboxed + entries_of_profiles(app, profiles),
            ..search
        },
        app,
        cancelled,
    )
}

pub open spec fn lists_of(fetched: Seq<(Seq<char>, Seq<Seq<char>>)>) -> Seq<Seq<Seq<char>>> {
    fetched.map_values(|f: (Seq<char>, Seq<Seq<char>>)| f.1)
}

/// The searcher's relays answered about contact lists: they are kept, and whom they
/// name is taken into the layer beyond.
pub open spec fn contacts_taken(
    search: SearchContent,
    app: AppContent,
    records: Seq<EventRecordContent>,
    now: u64,
) -> Stepped {
    let fetched = fetched_lists(search.batch, records, freshness_at(app, now));
    let (accounts, fault) = findings_spread(app.accounts, follow_findings(fetched));
    let kept_app = AppContent { accounts, ..app };
    match fault {
        Some(error) => Stepped {
            search,
            app: kept_app,
            updates: Seq::empty(),
            need: NeedContent::Failed(error),
        },
        None => follows_taken(search, kept_app, lists_of(fetched), Seq::empty()),
    }
}

/// Whether every count of a search can grow by a number.
pub open spec fn has_room(emitter: EmitterContent, more: nat) -> bool {
    &&& emitter.total_result_count + more <= usize::MAX
    &&& emitter.tally.from_cache + more <= usize::MAX
    &&& emitter.tally.from_relays + more <= usize::MAX
    &&& emitter.tally.from_write_relays + more <= usize::MAX
    &&& emitter.tally.from_open_ranking + more <= usize::MAX
    &&& emitter.tally.unresolved + more <= usize::MAX
}

/// What a step told, and what the search needs next.
#[derive(Debug)]
pub struct SearchStep {
    pub updates: Vec<UserSearchUpdate>,
    pub need: SearchNeed,
}

/// What a step led to.
pub open spec fn step_of(search: UserSearchRun, app: MarmotApp, step: SearchStep) -> Stepped {
    Stepped {
        search: search@,
        app: app@,
        updates: step.updates.deep_view(),
        need: step.need.deep_view(),
    }
}

/// Moves the first accounts of a list into a batch.
fn cut_batch(list: &mut Vec<String>) -> (batch: Vec<String>)
    ensures
        batch.deep_view() == old(list).deep_view().take(batch_len(old(list).deep_view())),
        final(list).deep_view() == old(list).deep_view().skip(batch_len(old(list).deep_view())),
{
    let ghost all = list.deep_view();
    let n = if list.len() < SEARCH_PUBKEY_BATCH_SIZE {
        list.len()
    } else {
        SEARCH_PUBKEY_BATCH_SIZE
    };
    let mut rest = list.split_off(n);
    std::mem::swap(&mut rest, list);
    assert(rest.deep_view() =~= all.take(batch_len(all)));
    assert(list.deep_view() =~= all.skip(batch_len(all)));
    rest
}

fn copy_ids(list: &Vec<String>) -> (copy: Vec<String>)
    ensures
        copy.deep_view() == list.deep_view(),
{
    crate::collections::copy_list(list)
}

fn add_update(updates: &mut Vec<UserSearchUpdate>, update: UserSearchUpdate)
    ensures
        final(updates).deep_view() == old(updates).deep_view().push(update.deep_view()),
{
    let ghost before = updates.deep_view();
    updates.push(update);
    assert(updates.deep_view() =~= before.push(update.deep_view()));
}

fn add_if_any(updates: &mut Vec<UserSearchUpdate>, update: Option<UserSearchUpdate>)
    ensures
        final(updates).deep_view() == with_update(
            old(updates).deep_view(),
            update.deep_view(),
        ),
{
    if let Some(update) = update {
        add_update(updates, update);
    }
}

fn no_updates() -> (updates: Vec<UserSearchUpdate>)
    ensures
        updates.deep_view() == Seq::<UpdateContent>::empty(),
{
    let updates: Vec<UserSearchUpdate> = Vec::new();
    assert(updates.deep_view() =~= Seq::<UpdateContent>::empty());
    updates
}

fn identities(records: &Vec<UserDirectoryRecord>) -> (ids: Vec<String>)
    ensures
        ids.deep_view() == ids_of(records.deep_view()),
{
    let ghost all = records.deep_view();
    let mut ids: Vec<String> = Vec::new();
    let mut i: usize = 0;
    while i < records.len()
        invariant
            i <= records@.len(),
            all == records.deep_view(),
            ids@.len() == i,
            forall|j: int| 0 <= j < i ==> (#[trigger] ids@[j])@ == all[j].account_id_hex,
        decreases records.len() - i,
    {
        assert(all[i as int] == records@[i as int].deep_view());
        ids.push(records[i].account_id_hex.clone());
        i += 1;
    }
    assert(ids.deep_view() =~= ids_of(all));
    ids
}

fn only_lists(fetched: Vec<(String, Vec<String>)>) -> (lists: Vec<Vec<String>>)
    ensures
        lists.deep_view() == lists_of(fetched.deep_view()),
{
    let ghost all = fetched.deep_view();
    let mut lists: Vec<Vec<String>> = Vec::new();
    let mut i: usize = 0;
    while i < fetched.len()
        invariant
            i <= fetched@.len(),
            all == fetched.deep_view(),
            lists@.len() == i,
            forall|j: int| 0 <= j < i ==> (#[trigger] lists@[j]).deep_view() == all[j].1,
        decreases fetched.len() - i,
    {
        assert(all[i as int] == fetched@[i as int].deep_view());
        lists.push(copy_ids(&fetched[i].1));
        i += 1;
    }
    assert(lists.deep_view() =~= lists_of(all));
    lists
}

proof fn lemma_known_len(
    app: AppContent,
    frontier: Seq<Seq<char>>,
    now: i64,
    known: Seq<EntryContent>,
    missing: Seq<Seq<char>>,
)
    ensures
        locally_known(app, frontier, now, known, missing) matches Ok((after, left)) ==> after.len()
            + left.len() == known.len() + missing.len() + frontier.len(),
    decreases frontier.len(),
{
    if frontier.len() > 0 {
        let rest = frontier.drop_first();
        match local_record(app, frontier[0], now) {
            Err(_) => {},
            Ok(Some(entry)) => lemma_known_len(app, rest, now, known.push(entry), missing),
            Ok(None) => lemma_known_len(app, rest, now, known, missing.push(frontier[0])),
        }
    }
}

proof fn lemma_split_len(records: Seq<EntryContent>)
    ensures
        records.filter(|r: EntryContent| r.profile is Some).len() + records.filter(
            |r: EntryContent| r.profile is None,
        ).len() == records.len(),
    decreases records.len(),
{
    reveal(Seq::filter);
    if records.len() > 0 {
        lemma_split_len(records.drop_last());
    }
}

proof fn lemma_carried_len(app: AppContent, profiles: Seq<(Seq<char>, ProfileContent)>)
    ensures
        entries_of_profiles(app, profiles).len() <= profiles.len(),
    decreases profiles.len(),
{
    if profiles.len() > 0 {
        lemma_carried_len(app, profiles.drop_first());
    }
}

impl UserSearchRun {
    /// Begins a search. A blank query finds nobody, and the search is over at once.
    pub fn begin(params: UserSearchParams, searcher_account_id_hex: String) -> (begun: (
        Self,
        SearchNeed,
    ))
        ensures
            begun.0@ == (SearchContent {
                radius_start: params.radius_start,
                radius_end: params.radius_end,
                close: params.radius_one_seeds.deep_view(),
                searcher: params.searcher_account_id_hex@,
                asked: params.query@,
                query: lowercased(trimmed(params.query@)),
                walk: WalkContent {
                    frontier: seq![searcher_account_id_hex@],
                    seen: Set::empty().insert(searcher_account_id_hex@),
                    off_graph: false,
                    radius: 0,
                    radius_end: params.radius_end,
                },
                emitter: EmitterContent {
                    total_result_count: 0,
                    emitted: Set::empty(),
                    radii: Map::empty(),
                    tally: no_tally(),
                },
                depth: LayerDepth { hop: 0, reported: 0 },
                now: 0,
                missing: Seq::empty(),
                batch: Seq::empty(),
                pending: Seq::empty(),
                outboxed: Seq::empty(),
                relays: Seq::empty(),
                layer: empty_layer(),
                unknown: Seq::empty(),
            }),
            begun.1.deep_view() == if lowercased(trimmed(params.query@)).len() == 0 {
                NeedContent::Completion
            } else {
                NeedContent::NextRadius
            },
    {
        let query = params.normalized_query();
        let need = if query.as_str().is_empty() {
            SearchNeed::Completion
        } else {
            SearchNeed::NextRadius
        };
        let walk = GraphWalk::new(searcher_account_id_hex, params.radius_end);
        let search = UserSearchRun {
            params,
            query,
            walk,
            emitter: SearchEmitter::new(),
            depth: LayerDepth { hop: 0, reported: 0 },
            now: 0,
            missing: Vec::new(),
            batch: Vec::new(),
            pending: Vec::new(),
            outboxed: Vec::new(),
            relays: Vec::new(),
            layer: NextLayer::new(),
            unknown: Vec::new(),
        };
        assert(search@.missing =~= Seq::<Seq<char>>::empty());
        assert(search@.batch =~= Seq::<Seq<char>>::empty());
        assert(search@.pending =~= Seq::<EntryContent>::empty());
        assert(search@.outboxed =~= Seq::<EntryContent>::empty());
        assert(search@.relays =~= Seq::<AuthorsContent>::empty());
        assert(search@.unknown =~= Seq::<Seq<char>>::empty());
        (search, need)
    }

    /// Whether every count of the search can grow by a number.
    pub fn has_room(&self, more: usize) -> (room: bool)
        ensures
            room == has_room(self@.emitter, more as nat),
    {
        let room = usize::MAX - more;
        let tally = self.emitter.tally;
        self.emitter.total_result_count <= room && tally.from_cache <= room && tally.from_relays
            <= room && tally.from_write_relays <= room && tally.from_open_ranking <= room
            && tally.unresolved <= room
    }

    /// Where the profiles of the search came from.
    pub fn tally(&self) -> (tally: SearchTally)
        ensures
            tally == self@.emitter.tally,
    {
        self.emitter.tally
    }

    /// How many accounts a step can match at most, beside those that its answer
    /// names.
    pub fn load(&self) -> (load: Option<usize>)
        ensures
            match load {
                Some(n) => n == step_load(self@),
                None => step_load(self@) > usize::MAX,
            },
    {
        let mut n: usize = self.walk.frontier.len();
        match n.checked_add(self.batch.len()) {
            Some(m) => {
                n = m;
            },
            None => {
                return None;
            },
        }
        match n.checked_add(self.pending.len()) {
            Some(m) => {
                n = m;
            },
            None => {
                return None;
            },
        }
        n.checked_add(self.outboxed.len())
    }

    fn finish_radius(&mut self, app: &MarmotApp, updates: &mut Vec<UserSearchUpdate>) -> (need:
        SearchNeed)
        ensures
            (Stepped {
                search: final(self)@,
                app: app@,
                updates: final(updates).deep_view(),
                need: need.deep_view(),
            }) == radius_done(old(self)@, app@, old(updates).deep_view()),
    {
        let radius: u8 = self.depth.reported;
        if self.layer.truncated {
            add_update(
                updates,
                self.emitter.emit(SearchUpdateTrigger::RadiusTruncated { radius }),
            );
        }
        add_update(updates, self.emitter.emit(SearchUpdateTrigger::RadiusCompleted { radius }));
        let mut layer = NextLayer::new();
        std::mem::swap(&mut layer, &mut self.layer);
        self.unknown = Vec::new();
        assert(self@.unknown =~= Seq::<Seq<char>>::empty());
        if self.walk.depth().is_none() {
            return SearchNeed::Discovery;
        }
        self.walk.complete(layer.candidates, &app.config.directory_search_fallback_seeds);
        SearchNeed::NextRadius
    }

    fn ask_for_follows(&mut self, app: &MarmotApp, updates: &mut Vec<UserSearchUpdate>) -> (need:
        SearchNeed)
        ensures
            (Stepped {
                search: final(self)@,
                app: app@,
                updates: final(updates).deep_view(),
                need: need.deep_view(),
            }) == follows_next(old(self)@, app@, old(updates).deep_view()),
    {
        if self.unknown.len() == 0 {
            return self.finish_radius(app, updates);
        }
        self.batch = cut_batch(&mut self.unknown);
        SearchNeed::ContactLists { account_ids: copy_ids(&self.batch) }
    }

    fn take_lists(
        &mut self,
        app: &MarmotApp,
        lists: Vec<Vec<String>>,
        updates: &mut Vec<UserSearchUpdate>,
    ) -> (need: SearchNeed)
        ensures
            (Stepped {
                search: final(self)@,
                app: app@,
                updates: final(updates).deep_view(),
                need: need.deep_view(),
            }) == follows_taken(
                old(self)@,
                app@,
                lists.deep_view(),
                old(updates).deep_view(),
            ),
    {
        let ghost start = self@;
        let ghost all = lists.deep_view();
        let mut i: usize = 0;
        assert(all.skip(0) =~= all);
        assert(self@ =~= (SearchContent {
            layer: self@.layer,
            walk: WalkContent { seen: self@.walk.seen, ..start.walk },
            ..start
        }));
        while i < lists.len()
            invariant
                i <= lists@.len(),
                all == lists.deep_view(),
                start == old(self)@,
                updates.deep_view() == old(updates).deep_view(),
                self@ == (SearchContent {
                    layer: self@.layer,
                    walk: WalkContent { seen: self@.walk.seen, ..start.walk },
                    ..start
                }),
                all_admitted(start.layer, start.walk.seen, all) == all_admitted(
                    self@.layer,
                    self@.walk.seen,
                    all.skip(i as int),
                ),
            decreases lists.len() - i,
        {
            assert(all.skip(i as int)[0] == lists@[i as int].deep_view());
            assert(all.skip(i as int).drop_first() =~= all.skip(i + 1));
            if !self.layer.take_in(copy_ids(&lists[i]), &mut self.walk.seen) {
                return self.finish_radius(app, updates);
            }
            i += 1;
        }
        self.ask_for_follows(app, updates)
    }

    fn go_beyond(&mut self, app: &MarmotApp, updates: &mut Vec<UserSearchUpdate>) -> (need:
        SearchNeed)
        ensures
            (Stepped {
                search: final(self)@,
                app: app@,
                updates: final(updates).deep_view(),
                need: need.deep_view(),
            }) == beyond(old(self)@, app@, old(updates).deep_view()),
    {
        let ghost start = self@;
        if self.depth.is_last(&self.params) {
            self.layer = NextLayer::new();
            self.unknown = Vec::new();
            assert(self@.unknown =~= Seq::<Seq<char>>::empty());
            return self.finish_radius(app, updates);
        }
        self.layer = self.walk.begin_layer(self.depth, &self.params);
        match app.partition_cached_follows(&self.walk.frontier) {
            Err(error) => SearchNeed::Failed(error),
            Ok((cached, unknown)) => {
                self.unknown = unknown;
                self.take_lists(app, cached, updates)
            },
        }
    }

    fn ask_for_profiles(
        &mut self,
        app: &MarmotApp,
        cancelled: bool,
        updates: &mut Vec<UserSearchUpdate>,
    ) -> (need: SearchNeed)
        ensures
            (Stepped {
                search: final(self)@,
                app: app@,
                updates: final(updates).deep_view(),
                need: need.deep_view(),
            }) == profiles_next(old(self)@, app@, cancelled, old(updates).deep_view()),
    {
        if self.missing.len() == 0 || cancelled {
            self.missing = Vec::new();
            assert(self@.missing =~= Seq::<Seq<char>>::empty());
            return self.go_beyond(app, updates);
        }
        self.batch = cut_batch(&mut self.missing);
        SearchNeed::Profiles { account_ids: copy_ids(&self.batch) }
    }

    fn tell_matches(
        &mut self,
        records: Vec<UserDirectoryRecord>,
        updates: &mut Vec<UserSearchUpdate>,
    )
        requires
            old(self)@.emitter.total_result_count + records@.len() <= usize::MAX,
        ensures
            ({
                let (after, update) = matched(old(self)@, records.deep_view());
                &&& final(self)@ == after
                &&& final(updates).deep_view() == with_update(old(updates).deep_view(), update)
            }),
            final(self)@.emitter.total_result_count <= old(self)@.emitter.total_result_count
                + records@.len(),
    {
        proof {
            lemma_fresh_len(
                self@.emitter.emitted,
                records.deep_view(),
                self.depth.reported,
                self@.query,
            );
        }
        let update = self.emitter.emit_matches(
            self.depth.reported,
            records,
            self.query.as_str(),
        );
        add_if_any(updates, update);
    }

    /// Begins the next radius.
    pub fn begin_radius(&mut self, app: &MarmotApp, cancelled: bool, now: i64) -> (step: SearchStep)
        requires
            has_room(old(self)@.emitter, old(self)@.walk.frontier.len()),
        ensures
            step_of(*final(self), *app, step) == radius_begun(old(self)@, app@, cancelled, now),
    {
        let mut updates = no_updates();
        let depth = match self.walk.depth() {
            None => {
                return SearchStep { updates, need: SearchNeed::Discovery };
            },
            Some(depth) => depth,
        };
        if cancelled {
            return SearchStep { updates, need: SearchNeed::Discovery };
        }
        let started = self.emitter.emit(
            SearchUpdateTrigger::RadiusStarted { radius: depth.reported },
        );
        let ghost told = started.deep_view();
        add_update(&mut updates, started);
        assert(updates.deep_view() =~= seq![told]);
        self.emitter.remember_graph_accounts(depth.reported, &self.walk.frontier);
        self.depth = depth;
        self.now = now;
        self.missing = Vec::new();
        assert(self@.missing =~= Seq::<Seq<char>>::empty());
        if !depth.is_reported(&self.params) {
            let need = self.go_beyond(app, &mut updates);
            return SearchStep { updates, need };
        }
        proof {
            lemma_known_len(app@, self@.walk.frontier, now, Seq::empty(), Seq::empty());
        }
        match app.partition_locally_known(&self.walk.frontier, now) {
            Err(error) => SearchStep { updates, need: SearchNeed::Failed(error) },
            Ok((known, missing)) => {
                assert(known@.len() == known.deep_view().len());
                self.emitter.tally.resolved_from_cache(known.len());
                self.tell_matches(known, &mut updates);
                self.missing = missing;
                let need = self.ask_for_profiles(app, cancelled, &mut updates);
                SearchStep { updates, need }
            },
        }
    }

    fn end_batch(
        &mut self,
        app: &MarmotApp,
        cancelled: bool,
        updates: &mut Vec<UserSearchUpdate>,
    ) -> (need: SearchNeed)
        requires
            old(self)@.emitter.total_result_count + old(self)@.pending.len() <= usize::MAX,
            old(self)@.emitter.tally.unresolved + old(self)@.pending.len() <= usize::MAX,
        ensures
            (Stepped {
                search: final(self)@,
                app: app@,
                updates: final(updates).deep_view(),
                need: need.deep_view(),
            }) == batch_done(old(self)@, app@, cancelled, old(updates).deep_view()),
    {
        let left = count_unresolved(&self.pending);
        self.emitter.tally.unresolved(left);
        let mut pending: Vec<UserDirectoryRecord> = Vec::new();
        std::mem::swap(&mut pending, &mut self.pending);
        assert(self@.pending =~= Seq::<EntryContent>::empty());
        self.tell_matches(pending, updates);
        self.ask_for_profiles(app, cancelled, updates)
    }

    fn keep_profiles(
        app: &mut MarmotApp,
        records: &Vec<UserDirectoryRecord>,
        now: i64,
    ) -> (fault: Option<AppError>)
        requires
            0 <= now,
            now + SEARCH_GRAPH_PROFILE_TTL_SECONDS <= i64::MAX,
        ensures
            (final(app)@, fault.deep_view()) == stored(
                old(app)@,
                profile_findings(records.deep_view(), now),
            ),
    {
        match app.cache_resolved_profiles(records, now) {
            Ok(()) => None,
            Err(error) => Some(error),
        }
    }

    /// Takes in the profiles that the searcher's relays hold of a batch.
    pub fn profiles_answered(
        &mut self,
        app: &mut MarmotApp,
        profiles: &Vec<(String, UserProfileMetadata)>,
        cancelled: bool,
    ) -> (step: SearchStep)
        requires
            0 <= old(self)@.now,
            old(self)@.now + SEARCH_GRAPH_PROFILE_TTL_SECONDS <= i64::MAX,
            has_room(old(self)@.emitter, old(self)@.batch.len()),
        ensures
            step_of(*final(self), *final(app), step) == profiles_taken(
                old(self)@,
                old(app)@,
                profiles.deep_view(),
                cancelled,
            ),
    {
        let mut updates = no_updates();
        let fetched = app.profile_records(&self.batch, profiles);
        proof {
            lemma_split_len(fetched.deep_view());
        }
        let (resolved, pending) = split_by_profile(fetched);
        assert(resolved@.len() == resolved.deep_view().len());
        assert(pending@.len() == pending.deep_view().len());
        self.pending = pending;
        self.emitter.tally.resolved_from_relays(resolved.len());
        let now: i64 = self.now;
        if let Some(error) = Self::keep_profiles(app, &resolved, now) {
            return SearchStep { updates, need: SearchNeed::Failed(error) };
        }
        self.tell_matches(resolved, &mut updates);
        if self.pending.len() > 0 && !cancelled {
            let need = SearchNeed::WriteLists { account_ids: identities(&self.pending) };
            return SearchStep { updates, need };
        }
        let need = self.end_batch(app, cancelled, &mut updates);
        SearchStep { updates, need }
    }

    fn ask_write_relays(&mut self, app: &mut MarmotApp, cancelled: bool) -> (step: SearchStep)
        requires
            0 <= old(self)@.now,
            old(self)@.now + SEARCH_GRAPH_PROFILE_TTL_SECONDS <= i64::MAX,
            has_room(
                old(self)@.emitter,
                old(self)@.pending.len() + old(self)@.outboxed.len(),
            ),
        ensures
            step_of(*final(self), *final(app), step) == outbox_next(
                old(self)@,
                old(app)@,
                cancelled,
            ),
    {
        let mut updates = no_updates();
        if self.relays.len() > 0 {
            assert(self@.relays[0] == self.relays@[0].deep_view());
            let need = SearchNeed::WriteProfiles {
                relay: self.relays[0].relay.clone(),
                account_ids: copy_ids(&self.relays[0].authors),
            };
            return SearchStep { updates, need };
        }
        assert(self.outboxed@.len() == self@.outboxed.len());
        self.emitter.tally.resolved_from_write_relays(self.outboxed.len());
        let now: i64 = self.now;
        if let Some(error) = Self::keep_profiles(app, &self.outboxed, now) {
            return SearchStep { updates, need: SearchNeed::Failed(error) };
        }
        replace_resolved_profiles(&mut self.pending, &self.outboxed);
        self.outboxed = Vec::new();
        assert(self@.outboxed =~= Seq::<EntryContent>::empty());
        let need = self.end_batch(app, cancelled, &mut updates);
        SearchStep { updates, need }
    }

    /// Takes in the write relays that accounts published, and says which of them to
    /// ask.
    pub fn write_lists_answered(
        &mut self,
        app: &mut MarmotApp,
        lists: &Vec<(String, Vec<String>)>,
        cancelled: bool,
    ) -> (step: SearchStep)
        requires
            0 <= old(self)@.now,
            old(self)@.now + SEARCH_GRAPH_PROFILE_TTL_SECONDS <= i64::MAX,
            has_room(old(self)@.emitter, old(self)@.pending.len()),
        ensures
            step_of(*final(self), *final(app), step) == write_lists_taken(
                old(self)@,
                old(app)@,
                lists.deep_view(),
                cancelled,
            ),
    {
        self.relays = choose_write_relays(lists);
        self.outboxed = Vec::new();
        assert(self@.outboxed =~= Seq::<EntryContent>::empty());
        self.ask_write_relays(app, cancelled)
    }

    /// Takes in the profiles that one of the accounts' own relays holds.
    pub fn write_profiles_answered(
        &mut self,
        app: &mut MarmotApp,
        profiles: &Vec<(String, UserProfileMetadata)>,
        cancelled: bool,
    ) -> (step: SearchStep)
        requires
            0 <= old(self)@.now,
            old(self)@.now + SEARCH_GRAPH_PROFILE_TTL_SECONDS <= i64::MAX,
            has_room(
                old(self)@.emitter,
                old(self)@.pending.len() + old(self)@.outboxed.len() + profiles@.len(),
            ),
        ensures
            step_of(*final(self), *final(app), step) == write_profiles_taken(
                old(self)@,
                old(app)@,
                profiles.deep_view(),
                cancelled,
            ),
    {
        let ghost start = self@;
        let ghost carried = entries_of_profiles(app@, profiles.deep_view());
        proof {
            lemma_carried_len(app@, profiles.deep_view());
        }
        let mut more = app.records_of_profiles(profiles);
        self.outboxed.append(&mut more);
        assert(self@.outboxed =~= start.outboxed + carried);
        if self.relays.len() > 0 {
            let _ = self.relays.remove(0);
            assert(self@.relays =~= start.relays.drop_first());
        }
        self.ask_write_relays(app, cancelled)
    }

    /// Takes in the contact lists that the searcher's relays hold of a batch.
    pub fn contact_lists_answered(
        &mut self,
        app: &mut MarmotApp,
        records: &Vec<RelayEventRecord>,
        now: u64,
    ) -> (step: SearchStep)
        ensures
            step_of(*final(self), *final(app), step) == contacts_taken(
                old(self)@,
                old(app)@,
                records.deep_view(),
                now,
            ),
    {
        let mut updates = no_updates();
        let freshness = app.directory_freshness(now);
        let fetched = latest_follow_lists(&self.batch, records, freshness);
        if let Err(error) = app.cache_resolved_follows(&fetched) {
            return SearchStep { updates, need: SearchNeed::Failed(error) };
        }
        let need = self.take_lists(app, only_lists(fetched), &mut updates);
        SearchStep { updates, need }
    }

    /// Tells that the radius ran out of time.
    pub fn timed_out(&self) -> (update: UserSearchUpdate)
        ensures
            update.deep_view() == plain(
                self@.emitter,
                TriggerContent::RadiusTimeout { radius: self@.depth.reported },
            ),
    {
        self.emitter.emit(SearchUpdateTrigger::RadiusTimeout { radius: self.depth.reported })
    }

    /// Tells why the graph could not be searched further.
    pub fn failed(&self, message: String) -> (update: UserSearchUpdate)
        ensures
            update.deep_view() == plain(
                self@.emitter,
                TriggerContent::Error { message: message@ },
            ),
    {
        self.emitter.emit(SearchUpdateTrigger::Error { message })
    }

    /// Tells that no update follows.
    pub fn completed(&self) -> (update: UserSearchUpdate)
        ensures
            update.deep_view() == plain(self@.emitter, TriggerContent::SearchCompleted),
    {
        self.emitter.emit(SearchUpdateTrigger::SearchCompleted)
    }

    /// The accounts that the discovery provider found and that are still of
    /// interest.
    pub fn still_wanted(&self, ranked: Vec<RankedPubkey>) -> (remaining: Vec<RankedPubkey>)
        ensures
            remaining.deep_view() == ranked.deep_view().filter(
                wanted(self@.emitter, self@.radius_start),
            ),
    {
        self.emitter.remaining_ranked_pubkeys(ranked, self.params.radius_start)
    }

    /// Takes in the profiles of accounts that the discovery provider found. Nothing
    /// of them is kept.
    pub fn ranked_answered(
        &mut self,
        app: &MarmotApp,
        ranked: &Vec<RankedPubkey>,
        profiles: &Vec<(String, UserProfileMetadata)>,
    ) -> (update: Option<UserSearchUpdate>)
        requires
            has_room(old(self)@.emitter, ranked@.len()),
        ensures
            (final(self)@, update.deep_view()) == ranked_taken(
                old(self)@,
                app@,
                ranked.deep_view(),
                profiles.deep_view(),
            ),
    {
        let records = app.hydrate_open_ranking_profiles(ranked, profiles);
        assert(records@.len() == records.deep_view().len());
        self.emitter.tally.resolved_from_open_ranking(records.len());
        self.emitter.emit_ranked_matches(records, self.query.as_str())
    }
}

/// How many accounts a step can match at most, beside those that its answer names.
pub open spec fn step_load(search: SearchContent) -> nat {
    search.walk.frontier.len() + search.batch.len() + search.pending.len()
        + search.outboxed.len()
}

/// A search after the profiles of accounts that the discovery provider found came.
pub open spec fn ranked_taken(
    search: SearchContent,
    app: AppContent,
    ranked: Seq<(Seq<char>, ProviderRank)>,
    profiles: Seq<(Seq<char>, ProfileContent)>,
) -> (SearchContent, Option<UpdateContent>) {
    let records = hydrated_ranked(app, ranked, profiles);
    let tally = search.emitter.tally;
    let counted = tallied(
        search,
        SearchTally {
            from_open_ranking: (tally.from_open_ranking + records.len()) as usize,
            ..tally
        },
    );
    let (emitter, update) = told(
        counted.emitter,
        fresh_ranked(counted.emitter, records, search.query),
        TriggerContent::DiscoveryResultsFound,
    );
    (SearchContent { emitter, ..counted }, update)
}

} // verus!
