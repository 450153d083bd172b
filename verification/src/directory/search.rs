//! Streaming search outward from a searcher: what is asked for, how one layer
//! leads to the next, and what is told to the one who asked.

use crate::directory::app_entry::{parse_account_id_hex, parsed_id, parsed_ids};
use crate::directory::app_search::window_error;
use crate::directory::entry::{EntryContent, UserDirectoryRecord};
use crate::directory::key_packages::outcome;
use crate::directory::search_match::{
    record_match, result_lt, result_of, search_result, sort_user_search_results, user_record_match,
    ProviderRank, ResultContent, UserDirectorySearchResult,
};
use crate::error::{AppError, ErrorContent};
use crate::order::sorted_by;
use crate::text::{lowercase_text, lowercased, trim_text, trimmed};
use vstd::hash_map::StringHashMap;
use vstd::hash_set::StringHashSet;
use vstd::prelude::*;

verus! {

/// Deepest radius that is searched: the searcher is at 0, whom they follow at 1,
/// and whom those follow at 2.
pub const MAX_SUPPORTED_SEARCH_RADIUS: u8 = 2;

/// The most accounts that one radius may contribute to the next layer.
pub const SEARCH_MAX_CANDIDATES_PER_RADIUS: usize = 25_000;

/// Updates that wait for a slow consumer before the search does.
pub const SEARCH_UPDATE_CHANNEL_CAPACITY: usize = 500;

/// Accounts asked for in one request to the relays.
pub const SEARCH_PUBKEY_BATCH_SIZE: usize = 200;

/// Seconds that the requests of one radius may take.
pub const SEARCH_RADIUS_TIMEOUT_SECONDS: u64 = 300;

/// The distance reported of an account that is not on the searcher's graph at all.
/// It sorts last.
pub const OFF_GRAPH_SEARCH_RADIUS: u8 = 255;

/// What a search is looking for, and how far out to look.
#[derive(Debug, PartialEq, Eq)]
pub struct UserSearchParams {
    pub searcher_account_id_hex: String,
    pub query: String,
    /// First radius whose matches are emitted, inclusive.
    pub radius_start: u8,
    /// Last radius whose matches are emitted, inclusive.
    pub radius_end: u8,
    /// Accounts to treat as radius 1 beside those the searcher follows.
    pub radius_one_seeds: Vec<String>,
}

/// How a search beyond the deepest radius is refused.
pub open spec fn depth_error() -> ErrorContent {
    ErrorContent::InvalidDirectorySearch("radius_end must be at most 2"@)
}

/// What checking the parameters of a search answers: the searcher's identity in its
/// canonical form, or the first thing that is wrong with them.
pub open spec fn checked_params(
    searcher: Seq<char>,
    radius_start: u8,
    radius_end: u8,
    seeds: Seq<Seq<char>>,
) -> Result<Seq<char>, ErrorContent> {
    if radius_start > radius_end {
        Err(window_error())
    } else if radius_end > MAX_SUPPORTED_SEARCH_RADIUS {
        Err(depth_error())
    } else if parsed_ids(seeds) is None {
        Err(ErrorContent::InvalidPublicKey)
    } else {
        parsed_id(searcher)
    }
}

impl UserSearchParams {
    /// Checks the request and returns the searcher's identity in its canonical form.
    pub fn validate(&self) -> (result: Result<String, AppError>)
        ensures
            outcome(result) == checked_params(
                self.searcher_account_id_hex@,
                self.radius_start,
                self.radius_end,
                self.radius_one_seeds.deep_view(),
            ),
    {
        if self.radius_start > self.radius_end {
            return Err(
                AppError::InvalidDirectorySearch(
                    "radius_start must be less than or equal to radius_end".to_owned(),
                ),
            );
        }
        if self.radius_end > MAX_SUPPORTED_SEARCH_RADIUS {
            return Err(
                AppError::InvalidDirectorySearch("radius_end must be at most 2".to_owned()),
            );
        }
        let ghost seeds = self.radius_one_seeds.deep_view();
        let mut i: usize = 0;
        assert(seeds.take(0) =~= Seq::<Seq<char>>::empty());
        while i < self.radius_one_seeds.len()
            invariant
                i <= self.radius_one_seeds@.len(),
                seeds == self.radius_one_seeds.deep_view(),
                parsed_ids(seeds.take(i as int)) is Some,
                self.radius_start <= self.radius_end,
                self.radius_end <= MAX_SUPPORTED_SEARCH_RADIUS,
            decreases self.radius_one_seeds.len() - i,
        {
            assert(seeds.take(i + 1).drop_last() =~= seeds.take(i as int));
            assert(seeds.take(i + 1).last() == self.radius_one_seeds@[i as int]@);
            if let Err(error) = parse_account_id_hex(self.radius_one_seeds[i].as_str()) {
                proof {
                    lemma_unparsed(seeds, i + 1);
                }
                return Err(error);
            }
            i += 1;
        }
        assert(seeds.take(seeds.len() as int) =~= seeds);
        parse_account_id_hex(self.searcher_account_id_hex.as_str())
    }

    /// The query as it is matched: without white space around it, in lower case.
    pub fn normalized_query(&self) -> (query: String)
        ensures
            query@ == lowercased(trimmed(self.query@)),
    {
        lowercase_text(trim_text(self.query.as_str()).as_str())
    }
}

proof fn lemma_unparsed(ids: Seq<Seq<char>>, n: int)
    requires
        0 <= n <= ids.len(),
        parsed_ids(ids.take(n)) is None,
    ensures
        parsed_ids(ids) is None,
    decreases ids.len() - n,
{
    if n == ids.len() {
        assert(ids.take(n) =~= ids);
    } else {
        assert(ids.take(n + 1).drop_last() =~= ids.take(n));
        lemma_unparsed(ids, n + 1);
    }
}

/// Why an update was emitted.
#[derive(Debug, PartialEq, Eq)]
pub enum SearchUpdateTrigger {
    /// The search began with this radius.
    RadiusStarted { radius: u8 },
    /// Matches were found at this radius.
    ResultsFound { radius: u8 },
    /// Matches were found by the discovery provider after the graph was searched.
    /// This reopens no radius.
    DiscoveryResultsFound,
    /// This radius is done.
    RadiusCompleted { radius: u8 },
    /// This radius ran out of time, and the search of the graph ends here.
    RadiusTimeout { radius: u8 },
    /// This radius led to more accounts than are looked at, so that what lies beyond
    /// is incomplete.
    RadiusTruncated { radius: u8 },
    /// No update follows.
    SearchCompleted,
    /// The search of the graph failed.
    Error { message: String },
}

/// The content of a [`SearchUpdateTrigger`].
#[verifier::ext_equal]
pub enum TriggerContent {
    RadiusStarted { radius: u8 },
    ResultsFound { radius: u8 },
    DiscoveryResultsFound,
    RadiusCompleted { radius: u8 },
    RadiusTimeout { radius: u8 },
    RadiusTruncated { radius: u8 },
    SearchCompleted,
    Error { message: Seq<char> },
}

impl DeepView for SearchUpdateTrigger {
    type V = TriggerContent;

    open spec fn deep_view(&self) -> TriggerContent {
        match self {
            SearchUpdateTrigger::RadiusStarted { radius } => TriggerContent::RadiusStarted {
                radius: *radius,
            },
            SearchUpdateTrigger::ResultsFound { radius } => TriggerContent::ResultsFound {
                radius: *radius,
            },
            SearchUpdateTrigger::DiscoveryResultsFound => TriggerContent::DiscoveryResultsFound,
            SearchUpdateTrigger::RadiusCompleted { radius } => TriggerContent::RadiusCompleted {
                radius: *radius,
            },
            SearchUpdateTrigger::RadiusTimeout { radius } => TriggerContent::RadiusTimeout {
                radius: *radius,
            },
            SearchUpdateTrigger::RadiusTruncated { radius } => TriggerContent::RadiusTruncated {
                radius: *radius,
            },
            SearchUpdateTrigger::SearchCompleted => TriggerContent::SearchCompleted,
            SearchUpdateTrigger::Error { message } => TriggerContent::Error { message: message@ },
        }
    }
}

/// One step of a running search.
#[derive(Debug, PartialEq, Eq)]
pub struct UserSearchUpdate {
    pub trigger: SearchUpdateTrigger,
    /// What this step found, best first.
    pub new_results: Vec<UserDirectorySearchResult>,
    /// How many results were emitted so far, with these.
    pub total_result_count: usize,
}

/// The content of a [`UserSearchUpdate`].
#[verifier::ext_equal]
pub struct UpdateContent {
    pub trigger: TriggerContent,
    pub new_results: Seq<ResultContent>,
    pub total_result_count: usize,
}

impl DeepView for UserSearchUpdate {
    type V = UpdateContent;

    open spec fn deep_view(&self) -> UpdateContent {
        UpdateContent {
            trigger: self.trigger.deep_view(),
            new_results: self.new_results.deep_view(),
            total_result_count: self.total_result_count,
        }
    }
}

/// How far a layer was walked to, and how that is reported. The two differ once a
/// search fell back to a configured seed.
#[derive(Clone, Copy, Debug, PartialEq, Eq, Structural)]
pub struct LayerDepth {
    /// Hops from where the walk started.
    pub hop: u8,
    /// The distance that is reported.
    pub reported: u8,
}

impl LayerDepth {
    /// Whether the accounts at this depth are to be reported.
    pub fn is_reported(self, params: &UserSearchParams) -> (reported: bool)
        ensures
            reported == (self.hop >= params.radius_start),
    {
        self.hop >= params.radius_start
    }

    /// Whether no layer lies beyond this depth.
    pub fn is_last(self, params: &UserSearchParams) -> (last: bool)
        ensures
            last == (self.hop == params.radius_end),
    {
        self.hop == params.radius_end
    }
}

/// The accounts that one radius contributes to the next.
#[derive(Debug)]
pub struct NextLayer {
    pub candidates: Vec<String>,
    /// The layer holds as many accounts as it may, and others were left out.
    pub truncated: bool,
}

/// The content of a [`NextLayer`].
#[verifier::ext_equal]
pub struct LayerContent {
    pub candidates: Seq<Seq<char>>,
    pub truncated: bool,
}

impl DeepView for NextLayer {
    type V = LayerContent;

    open spec fn deep_view(&self) -> LayerContent {
        LayerContent { candidates: self.candidates.deep_view(), truncated: self.truncated }
    }
}

/// A layer that nobody was taken into.
pub open spec fn empty_layer() -> LayerContent {
    LayerContent { candidates: Seq::empty(), truncated: false }
}

/// What taking accounts into a layer leads to: the layer, who was seen, and whether
/// all of them were considered.
#[verifier::ext_equal]
pub struct Admitted {
    pub layer: LayerContent,
    pub seen: Set<Seq<char>>,
    pub all: bool,
}

/// A layer after accounts were taken into it, one after the other, each unless it
/// was seen, until the layer is full.
pub open spec fn admitted(
    layer: LayerContent,
    seen: Set<Seq<char>>,
    follows: Seq<Seq<char>>,
) -> Admitted
    decreases follows.len(),
{
    if follows.len() == 0 {
        Admitted { layer, seen, all: true }
    } else if layer.candidates.len() >= SEARCH_MAX_CANDIDATES_PER_RADIUS {
        Admitted { layer: LayerContent { truncated: true, ..layer }, seen, all: false }
    } else if seen.contains(follows[0]) {
        admitted(layer, seen, follows.drop_first())
    } else {
        admitted(
            LayerContent { candidates: layer.candidates.push(follows[0]), ..layer },
            seen.insert(follows[0]),
            follows.drop_first(),
        )
    }
}

impl NextLayer {
    pub fn new() -> (layer: Self)
        ensures
            layer.deep_view() == empty_layer(),
    {
        let layer = NextLayer { candidates: Vec::new(), truncated: false };
        assert(layer.deep_view() =~= empty_layer());
        layer
    }

    /// Takes accounts into the layer, each unless it was seen. Returns `false` once
    /// the layer is full and nobody further can be taken in.
    pub fn take_in(&mut self, follows: Vec<String>, seen: &mut StringHashSet) -> (all: bool)
        ensures
            admitted(old(self).deep_view(), old(seen)@, follows.deep_view()) == (Admitted {
                layer: final(self).deep_view(),
                seen: final(seen)@,
                all,
            }),
    {
        let ghost given = follows.deep_view();
        let ghost start = self.deep_view();
        let ghost seen_before = seen@;
        let mut i: usize = 0;
        assert(given.skip(0) =~= given);
        while i < follows.len()
            invariant
                i <= follows@.len(),
                given == follows.deep_view(),
                start == old(self).deep_view(),
                seen_before == old(seen)@,
                admitted(start, seen_before, given) == admitted(
                    self.deep_view(),
                    seen@,
                    given.skip(i as int),
                ),
            decreases follows.len() - i,
        {
            assert(given.skip(i as int)[0] == follows@[i as int]@);
            assert(given.skip(i as int).drop_first() =~= given.skip(i + 1));
            if self.candidates.len() >= SEARCH_MAX_CANDIDATES_PER_RADIUS {
                self.truncated = true;
                return false;
            }
            let ghost before = self.deep_view();
            let ghost seen_now = seen@;
            if seen.insert(follows[i].clone()) {
                self.candidates.push(follows[i].clone());
                assert(self.deep_view().candidates =~= before.candidates.push(
                    follows@[i as int]@,
                ));
            } else {
                assert(seen@ =~= seen_now);
            }
            i += 1;
        }
        true
    }
}

/// Who was seen already, and stands in a layer no more than once.
pub open spec fn layer_sound(layer: LayerContent, seen: Set<Seq<char>>) -> bool {
    &&& layer.candidates.no_duplicates()
    &&& layer.candidates.len() <= SEARCH_MAX_CANDIDATES_PER_RADIUS
    &&& forall|i: int| 0 <= i < layer.candidates.len() ==> seen.contains(#[trigger] layer.candidates[i])
}

/// A layer never holds an account twice, nor one that was seen before, nor more
/// accounts than it may. It leaves somebody out exactly where it says that it was
/// truncated, and is full then.
pub proof fn law_layer_admits_each_account_once(
    layer: LayerContent,
    seen: Set<Seq<char>>,
    follows: Seq<Seq<char>>,
)
    requires
        layer_sound(layer, seen),
    ensures
        ({
            let after = admitted(layer, seen, follows);
            &&& layer_sound(after.layer, after.seen)
            &&& seen.subset_of(after.seen)
            &&& after.layer.candidates.len() >= layer.candidates.len()
            &&& after.layer.candidates.take(layer.candidates.len() as int) == layer.candidates
            &&& forall|i: int|
                layer.candidates.len() <= i < after.layer.candidates.len() ==> !seen.contains(
                    #[trigger] after.layer.candidates[i],
                ) && follows.contains(after.layer.candidates[i])
            &&& after.all ==> after.layer.truncated == layer.truncated && forall|i: int|
                0 <= i < follows.len() ==> after.seen.contains(#[trigger] follows[i])
            &&& !after.all ==> after.layer.truncated && after.layer.candidates.len()
                == SEARCH_MAX_CANDIDATES_PER_RADIUS
        }),
    decreases follows.len(),
{
    let after = admitted(layer, seen, follows);
    assert(layer.candidates.take(layer.candidates.len() as int) =~= layer.candidates);
    if follows.len() > 0 && layer.candidates.len() < SEARCH_MAX_CANDIDATES_PER_RADIUS {
        let rest = follows.drop_first();
        let (step, step_seen) = if seen.contains(follows[0]) {
            (layer, seen)
        } else {
            (
                LayerContent { candidates: layer.candidates.push(follows[0]), ..layer },
                seen.insert(follows[0]),
            )
        };
        assert(step.candidates.no_duplicates());
        law_layer_admits_each_account_once(step, step_seen, rest);
        assert(after == admitted(step, step_seen, rest));
        assert(after.layer.candidates.take(layer.candidates.len() as int) =~= layer.candidates) by {
            assert forall|i: int| 0 <= i < layer.candidates.len() implies after.layer.candidates[i]
                == layer.candidates[i] by {
                assert(after.layer.candidates.take(step.candidates.len() as int)[i]
                    == step.candidates[i]);
            }
        }
        assert forall|i: int|
            layer.candidates.len() <= i < after.layer.candidates.len() implies !seen.contains(
            #[trigger] after.layer.candidates[i],
        ) && follows.contains(after.layer.candidates[i]) by {
            if i < step.candidates.len() {
                assert(after.layer.candidates.take(step.candidates.len() as int)[i]
                    == step.candidates[i]);
                assert(follows[0] == after.layer.candidates[i]);
            } else {
                assert(rest.contains(after.layer.candidates[i]));
                let k = choose|k: int| 0 <= k < rest.len() && rest[k] == after.layer.candidates[i];
                assert(follows[k + 1] == after.layer.candidates[i]);
            }
        }
        if after.all {
            assert forall|i: int| 0 <= i < follows.len() implies after.seen.contains(
                #[trigger] follows[i],
            ) by {
                if i > 0 {
                    assert(rest[i - 1] == follows[i]);
                } else {
                    assert(step_seen.contains(follows[0]));
                }
            }
        }
    }
}

/// Where one search's profiles came from. Counts alone.
#[derive(Clone, Copy, Debug, PartialEq, Eq, Structural)]
pub struct SearchTally {
    /// From this device.
    pub from_cache: usize,
    /// From the searcher's own relays.
    pub from_relays: usize,
    /// From the relays that the account says it writes to.
    pub from_write_relays: usize,
    /// From the discovery provider's relays.
    pub from_open_ranking: usize,
    /// From nowhere.
    pub unresolved: usize,
}

/// A tally of nothing.
pub open spec fn no_tally() -> SearchTally {
    SearchTally {
        from_cache: 0,
        from_relays: 0,
        from_write_relays: 0,
        from_open_ranking: 0,
        unresolved: 0,
    }
}

impl Default for SearchTally {
    fn default() -> (tally: Self)
        ensures
            tally == no_tally(),
    {
        SearchTally {
            from_cache: 0,
            from_relays: 0,
            from_write_relays: 0,
            from_open_ranking: 0,
            unresolved: 0,
        }
    }
}

impl SearchTally {
    pub fn resolved_from_cache(&mut self, count: usize)
        requires
            old(self).from_cache + count <= usize::MAX,
        ensures
            *final(self) == (SearchTally {
                from_cache: (old(self).from_cache + count) as usize,
                ..*old(self)
            }),
    {
        self.from_cache = self.from_cache + count;
    }

    pub fn resolved_from_relays(&mut self, count: usize)
        requires
            old(self).from_relays + count <= usize::MAX,
        ensures
            *final(self) == (SearchTally {
                from_relays: (old(self).from_relays + count) as usize,
                ..*old(self)
            }),
    {
        self.from_relays = self.from_relays + count;
    }

    pub fn resolved_from_write_relays(&mut self, count: usize)
        requires
            old(self).from_write_relays + count <= usize::MAX,
        ensures
            *final(self) == (SearchTally {
                from_write_relays: (old(self).from_write_relays + count) as usize,
                ..*old(self)
            }),
    {
        self.from_write_relays = self.from_write_relays + count;
    }

    pub fn resolved_from_open_ranking(&mut self, count: usize)
        requires
            old(self).from_open_ranking + count <= usize::MAX,
        ensures
            *final(self) == (SearchTally {
                from_open_ranking: (old(self).from_open_ranking + count) as usize,
                ..*old(self)
            }),
    {
        self.from_open_ranking = self.from_open_ranking + count;
    }

    pub fn unresolved(&mut self, count: usize)
        requires
            old(self).unresolved + count <= usize::MAX,
        ensures
            *final(self) == (SearchTally {
                unresolved: (old(self).unresolved + count) as usize,
                ..*old(self)
            }),
    {
        self.unresolved = self.unresolved + count;
    }
}

/// An account that the discovery provider found.
#[derive(Debug, PartialEq, Eq)]
pub struct RankedPubkey {
    pub account_id_hex: String,
    pub rank: ProviderRank,
}

impl DeepView for RankedPubkey {
    type V = (Seq<char>, ProviderRank);

    open spec fn deep_view(&self) -> (Seq<char>, ProviderRank) {
        (self.account_id_hex@, self.rank)
    }
}

/// What is known of an account that the discovery provider found.
#[derive(Debug, PartialEq, Eq)]
pub struct RankedDirectoryRecord {
    pub record: UserDirectoryRecord,
    pub rank: ProviderRank,
}

impl DeepView for RankedDirectoryRecord {
    type V = (EntryContent, ProviderRank);

    open spec fn deep_view(&self) -> (EntryContent, ProviderRank) {
        (self.record.deep_view(), self.rank)
    }
}

/// What a search told so far.
pub struct SearchEmitter {
    pub total_result_count: usize,
    pub emitted_account_ids: StringHashSet,
    pub graph_radii: StringHashMap<u8>,
    pub tally: SearchTally,
}

/// The content of a [`SearchEmitter`].
#[verifier::ext_equal]
pub struct EmitterContent {
    pub total_result_count: usize,
    pub emitted: Set<Seq<char>>,
    pub radii: Map<Seq<char>, u8>,
    pub tally: SearchTally,
}

impl View for SearchEmitter {
    type V = EmitterContent;

    open spec fn view(&self) -> EmitterContent {
        EmitterContent {
            total_result_count: self.total_result_count,
            emitted: self.emitted_account_ids@,
            radii: self.graph_radii@,
            tally: self.tally,
        }
    }
}

/// The new results among matches, and who was emitted with them.
#[verifier::ext_equal]
pub struct Fresh {
    pub results: Seq<ResultContent>,
    pub emitted: Set<Seq<char>>,
}

/// One more match, unless its account was emitted.
pub open spec fn with_match(fresh: Fresh, result: Option<ResultContent>) -> Fresh {
    match result {
        None => fresh,
        Some(result) => if fresh.emitted.contains(result.account_id_hex) {
            fresh
        } else {
            Fresh {
                results: fresh.results.push(result),
                emitted: fresh.emitted.insert(result.account_id_hex),
            }
        },
    }
}

/// How an account at a radius matches a query.
pub open spec fn graph_result(entry: EntryContent, radius: u8, query: Seq<char>) -> Option<
    ResultContent,
> {
    match record_match(entry, query) {
        Some(found) => Some(result_of(entry, radius, found, None)),
        None => None,
    }
}

/// How an account that the provider ranked matches a query. One that the graph led
/// to keeps its radius and loses its rank.
pub open spec fn ranked_result(
    radii: Map<Seq<char>, u8>,
    entry: EntryContent,
    rank: ProviderRank,
    query: Seq<char>,
) -> Option<ResultContent> {
    match record_match(entry, query) {
        None => None,
        Some(found) => {
            let radius = if radii.dom().contains(entry.account_id_hex) {
                radii[entry.account_id_hex]
            } else {
                OFF_GRAPH_SEARCH_RADIUS
            };
            Some(
                result_of(
                    entry,
                    radius,
                    found,
                    if radius == OFF_GRAPH_SEARCH_RADIUS {
                        Some(rank)
                    } else {
                        None
                    },
                ),
            )
        },
    }
}

/// The new results of a layer.
pub open spec fn fresh_matches(
    emitted: Set<Seq<char>>,
    records: Seq<EntryContent>,
    radius: u8,
    query: Seq<char>,
) -> Fresh
    decreases records.len(),
{
    if records.len() == 0 {
        Fresh { results: Seq::empty(), emitted }
    } else {
        with_match(
            fresh_matches(emitted, records.drop_last(), radius, query),
            graph_result(records.last(), radius, query),
        )
    }
}

/// The new results of the provider.
pub open spec fn fresh_ranked(
    emitter: EmitterContent,
    records: Seq<(EntryContent, ProviderRank)>,
    query: Seq<char>,
) -> Fresh
    decreases records.len(),
{
    if records.len() == 0 {
        Fresh { results: Seq::empty(), emitted: emitter.emitted }
    } else {
        with_match(
            fresh_ranked(emitter, records.drop_last(), query),
            ranked_result(emitter.radii, records.last().0, records.last().1, query),
        )
    }
}

/// What is told of new results: nothing where there are none.
pub open spec fn told(emitter: EmitterContent, fresh: Fresh, trigger: TriggerContent) -> (
    EmitterContent,
    Option<UpdateContent>,
) {
    let total = (emitter.total_result_count + fresh.results.len()) as usize;
    (
        EmitterContent { total_result_count: total, emitted: fresh.emitted, ..emitter },
        if fresh.results.len() == 0 {
            None
        } else {
            Some(
                UpdateContent {
                    trigger,
                    new_results: sorted_by(fresh.results, result_lt()),
                    total_result_count: total,
                },
            )
        },
    )
}

/// The radii after the accounts of a layer were noted. The first radius of an
/// account stays.
pub open spec fn with_radii(radii: Map<Seq<char>, u8>, accounts: Seq<Seq<char>>, radius: u8) -> Map<
    Seq<char>,
    u8,
>
    decreases accounts.len(),
{
    if accounts.len() == 0 {
        radii
    } else {
        let before = with_radii(radii, accounts.drop_last(), radius);
        if before.dom().contains(accounts.last()) {
            before
        } else {
            before.insert(accounts.last(), radius)
        }
    }
}

/// Whether a ranked account is still of interest: it was not emitted, and the graph
/// did not lead to it below the requested radii.
pub open spec fn still_wanted(emitter: EmitterContent, account: Seq<char>, radius_start: u8)
    -> bool {
    &&& !emitter.emitted.contains(account)
    &&& emitter.radii.dom().contains(account) ==> emitter.radii[account] >= radius_start
}

pub open spec fn wanted(emitter: EmitterContent, radius_start: u8) -> spec_fn(
    (Seq<char>, ProviderRank),
) -> bool {
    |ranked: (Seq<char>, ProviderRank)| still_wanted(emitter, ranked.0, radius_start)
}

/// No more results are new than there are accounts.
pub proof fn lemma_fresh_len(
    emitted: Set<Seq<char>>,
    records: Seq<EntryContent>,
    radius: u8,
    query: Seq<char>,
)
    ensures
        fresh_matches(emitted, records, radius, query).results.len() <= records.len(),
    decreases records.len(),
{
    if records.len() > 0 {
        lemma_fresh_len(emitted, records.drop_last(), radius, query);
    }
}

proof fn lemma_fresh_ranked_len(
    emitter: EmitterContent,
    records: Seq<(EntryContent, ProviderRank)>,
    query: Seq<char>,
)
    ensures
        fresh_ranked(emitter, records, query).results.len() <= records.len(),
    decreases records.len(),
{
    if records.len() > 0 {
        lemma_fresh_ranked_len(emitter, records.drop_last(), query);
    }
}

impl SearchEmitter {
    pub fn new() -> (emitter: Self)
        ensures
            emitter@ == (EmitterContent {
                total_result_count: 0,
                emitted: Set::empty(),
                radii: Map::empty(),
                tally: no_tally(),
            }),
    {
        SearchEmitter {
            total_result_count: 0,
            emitted_account_ids: StringHashSet::new(),
            graph_radii: StringHashMap::new(),
            tally: SearchTally::default(),
        }
    }

    /// An update that brings no results.
    pub fn emit(&self, trigger: SearchUpdateTrigger) -> (update: UserSearchUpdate)
        ensures
            update.deep_view() == (UpdateContent {
                trigger: trigger.deep_view(),
                new_results: Seq::empty(),
                total_result_count: self@.total_result_count,
            }),
    {
        let new_results: Vec<UserDirectorySearchResult> = Vec::new();
        assert(new_results.deep_view() =~= Seq::<ResultContent>::empty());
        UserSearchUpdate { trigger, new_results, total_result_count: self.total_result_count }
    }

    /// Notes how far the accounts of a layer are. An account keeps the radius at
    /// which it was met first.
    pub fn remember_graph_accounts(&mut self, radius: u8, account_ids: &Vec<String>)
        ensures
            final(self)@ == (EmitterContent {
                radii: with_radii(old(self)@.radii, account_ids.deep_view(), radius),
                ..old(self)@
            }),
    {
        let ghost start = self@;
        let ghost all = account_ids.deep_view();
        let mut i: usize = 0;
        assert(all.take(0) =~= Seq::<Seq<char>>::empty());
        while i < account_ids.len()
            invariant
                i <= account_ids@.len(),
                all == account_ids.deep_view(),
                self@ == (EmitterContent {
                    radii: with_radii(start.radii, all.take(i as int), radius),
                    ..start
                }),
            decreases account_ids.len() - i,
        {
            assert(all.take(i + 1).drop_last() =~= all.take(i as int));
            assert(all.take(i + 1).last() == account_ids@[i as int]@);
            if !self.graph_radii.contains_key(account_ids[i].as_str()) {
                self.graph_radii.insert(account_ids[i].clone(), radius);
            }
            i += 1;
        }
        assert(all.take(all.len() as int) =~= all);
    }

    fn wants(&self, account: &String, radius_start: u8) -> (wanted: bool)
        ensures
            wanted == still_wanted(self@, account@, radius_start),
    {
        if self.emitted_account_ids.contains(account.as_str()) {
            return false;
        }
        match self.graph_radii.get(account.as_str()) {
            Some(radius) => *radius >= radius_start,
            None => true,
        }
    }

    /// The ranked accounts that are still of interest after the graph was searched.
    pub fn remaining_ranked_pubkeys(&self, ranked_pubkeys: Vec<RankedPubkey>, radius_start: u8)
        -> (remaining: Vec<RankedPubkey>)
        ensures
            remaining.deep_view() == ranked_pubkeys.deep_view().filter(
                wanted(self@, radius_start),
            ),
    {
        let ghost all = ranked_pubkeys.deep_view();
        let ghost keep = wanted(self@, radius_start);
        let mut remaining: Vec<RankedPubkey> = Vec::new();
        let mut i: usize = 0;
        assert(all.take(0) =~= Seq::<(Seq<char>, ProviderRank)>::empty());
        assert(remaining.deep_view() =~= all.take(0).filter(keep)) by {
            reveal(Seq::filter);
        }
        while i < ranked_pubkeys.len()
            invariant
                i <= ranked_pubkeys@.len(),
                all == ranked_pubkeys.deep_view(),
                keep == wanted(self@, radius_start),
                remaining.deep_view() == all.take(i as int).filter(keep),
            decreases ranked_pubkeys.len() - i,
        {
            let ghost before = remaining.deep_view();
            assert(all.take(i + 1).drop_last() =~= all.take(i as int));
            assert(all.take(i + 1).last() == ranked_pubkeys@[i as int].deep_view());
            if self.wants(&ranked_pubkeys[i].account_id_hex, radius_start) {
                remaining.push(
                    RankedPubkey {
                        account_id_hex: ranked_pubkeys[i].account_id_hex.clone(),
                        rank: ranked_pubkeys[i].rank,
                    },
                );
                assert(remaining.deep_view() =~= before.push(
                    ranked_pubkeys@[i as int].deep_view(),
                ));
            }
            proof {
                reveal(Seq::filter);
            }
            i += 1;
        }
        assert(all.take(all.len() as int) =~= all);
        remaining
    }

    /// Tells new results, best first; nothing where there are none.
    fn tell(&mut self, trigger: SearchUpdateTrigger, results: Vec<UserDirectorySearchResult>)
        -> (update: Option<UserSearchUpdate>)
        requires
            old(self).total_result_count + results@.len() <= usize::MAX,
        ensures
            (final(self)@, update.deep_view()) == told(
                old(self)@,
                Fresh { results: results.deep_view(), emitted: old(self)@.emitted },
                trigger.deep_view(),
            ),
    {
        if results.len() == 0 {
            return None;
        }
        let mut results = results;
        self.total_result_count = self.total_result_count + results.len();
        sort_user_search_results(&mut results);
        Some(
            UserSearchUpdate {
                trigger,
                new_results: results,
                total_result_count: self.total_result_count,
            },
        )
    }

    /// Matches the accounts of a layer against the query and tells those that are
    /// new.
    pub fn emit_matches(&mut self, radius: u8, records: Vec<UserDirectoryRecord>, query: &str)
        -> (update: Option<UserSearchUpdate>)
        requires
            old(self).total_result_count + records@.len() <= usize::MAX,
        ensures
            (final(self)@, update.deep_view()) == told(
                old(self)@,
                fresh_matches(old(self)@.emitted, records.deep_view(), radius, query@),
                TriggerContent::ResultsFound { radius },
            ),
    {
        let ghost start = self@;
        let ghost all = records.deep_view();
        let mut results: Vec<UserDirectorySearchResult> = Vec::new();
        let mut i: usize = 0;
        assert(all.take(0) =~= Seq::<EntryContent>::empty());
        assert(results.deep_view() =~= Seq::<ResultContent>::empty());
        while i < records.len()
            invariant
                i <= records@.len(),
                all == records.deep_view(),
                ({
                    let fresh = fresh_matches(
                        start.emitted,
                        all.take(i as int),
                        radius,
                        query@,
                    );
                    &&& results.deep_view() == fresh.results
                    &&& self@ == (EmitterContent { emitted: fresh.emitted, ..start })
                }),
            decreases records.len() - i,
        {
            assert(all.take(i + 1).drop_last() =~= all.take(i as int));
            assert(all.take(i + 1).last() == records@[i as int].deep_view());
            let ghost before = results.deep_view();
            let ghost emitted = self@.emitted;
            if let Some(found) = user_record_match(&records[i], query) {
                if self.emitted_account_ids.insert(records[i].account_id_hex.clone()) {
                    let result = search_result(&records[i], radius, found, None);
                    let ghost added = result.deep_view();
                    results.push(result);
                    assert(results.deep_view() =~= before.push(added));
                } else {
                    assert(self@.emitted =~= emitted);
                }
            }
            i += 1;
        }
        assert(all.take(all.len() as int) =~= all);
        proof {
            lemma_fresh_len(start.emitted, all, radius, query@);
        }
        self.tell(SearchUpdateTrigger::ResultsFound { radius }, results)
    }

    /// Matches the accounts that the provider ranked against the query and tells
    /// those that are new.
    pub fn emit_ranked_matches(&mut self, records: Vec<RankedDirectoryRecord>, query: &str)
        -> (update: Option<UserSearchUpdate>)
        requires
            old(self).total_result_count + records@.len() <= usize::MAX,
        ensures
            (final(self)@, update.deep_view()) == told(
                old(self)@,
                fresh_ranked(old(self)@, records.deep_view(), query@),
                TriggerContent::DiscoveryResultsFound,
            ),
    {
        let ghost start = self@;
        let ghost all = records.deep_view();
        let mut results: Vec<UserDirectorySearchResult> = Vec::new();
        let mut i: usize = 0;
        assert(all.take(0) =~= Seq::<(EntryContent, ProviderRank)>::empty());
        assert(results.deep_view() =~= Seq::<ResultContent>::empty());
        while i < records.len()
            invariant
                i <= records@.len(),
                all == records.deep_view(),
                ({
                    let fresh = fresh_ranked(start, all.take(i as int), query@);
                    &&& results.deep_view() == fresh.results
                    &&& self@ == (EmitterContent { emitted: fresh.emitted, ..start })
                }),
            decreases records.len() - i,
        {
            assert(all.take(i + 1).drop_last() =~= all.take(i as int));
            assert(all.take(i + 1).last() == records@[i as int].deep_view());
            let ghost before = results.deep_view();
            let ghost emitted = self@.emitted;
            let record = &records[i].record;
            if let Some(found) = user_record_match(record, query) {
                let radius: u8 = match self.graph_radii.get(record.account_id_hex.as_str()) {
                    Some(radius) => *radius,
                    None => OFF_GRAPH_SEARCH_RADIUS,
                };
                let provider_rank = if radius == OFF_GRAPH_SEARCH_RADIUS {
                    Some(records[i].rank)
                } else {
                    None
                };
                if self.emitted_account_ids.insert(record.account_id_hex.clone()) {
                    let result = search_result(record, radius, found, provider_rank);
                    let ghost added = result.deep_view();
                    results.push(result);
                    assert(results.deep_view() =~= before.push(added));
                } else {
                    assert(self@.emitted =~= emitted);
                }
            }
            i += 1;
        }
        assert(all.take(all.len() as int) =~= all);
        proof {
            lemma_fresh_ranked_len(start, all, query@);
        }
        self.tell(SearchUpdateTrigger::DiscoveryResultsFound, results)
    }
}

/// The results are of different accounts, none of which was emitted before, and all
/// of which are emitted now.
pub open spec fn told_once(before: Set<Seq<char>>, fresh: Fresh) -> bool {
    &&& before.subset_of(fresh.emitted)
    &&& forall|i: int|
        0 <= i < fresh.results.len() ==> !before.contains(
            (#[trigger] fresh.results[i]).account_id_hex,
        ) && fresh.emitted.contains(fresh.results[i].account_id_hex)
    &&& forall|i: int, j: int|
        0 <= i < j < fresh.results.len() ==> (#[trigger] fresh.results[i]).account_id_hex != (
        #[trigger] fresh.results[j]).account_id_hex
}

proof fn lemma_with_match_once(before: Set<Seq<char>>, fresh: Fresh, result: Option<ResultContent>)
    requires
        told_once(before, fresh),
    ensures
        told_once(before, with_match(fresh, result)),
{
    let after = with_match(fresh, result);
    assert forall|i: int, j: int| 0 <= i < j < after.results.len() implies (
    #[trigger] after.results[i]).account_id_hex != (
    #[trigger] after.results[j]).account_id_hex by {
        assert(after.results[i] == fresh.results[i]);
        if j < fresh.results.len() {
            assert(after.results[j] == fresh.results[j]);
        }
    }
    assert forall|i: int| 0 <= i < after.results.len() implies !before.contains(
        (#[trigger] after.results[i]).account_id_hex,
    ) && after.emitted.contains(after.results[i].account_id_hex) by {
        if i < fresh.results.len() {
            assert(after.results[i] == fresh.results[i]);
        }
    }
}

/// A search tells of an account once, however many layers and providers lead to it.
pub proof fn law_account_is_told_once(
    emitter: EmitterContent,
    records: Seq<EntryContent>,
    ranked: Seq<(EntryContent, ProviderRank)>,
    radius: u8,
    query: Seq<char>,
)
    ensures
        told_once(emitter.emitted, fresh_matches(emitter.emitted, records, radius, query)),
        told_once(emitter.emitted, fresh_ranked(emitter, ranked, query)),
    decreases records.len() + ranked.len(),
{
    if records.len() > 0 {
        law_account_is_told_once(emitter, records.drop_last(), ranked, radius, query);
        lemma_with_match_once(
            emitter.emitted,
            fresh_matches(emitter.emitted, records.drop_last(), radius, query),
            graph_result(records.last(), radius, query),
        );
    }
    if ranked.len() > 0 {
        law_account_is_told_once(emitter, records, ranked.drop_last(), radius, query);
        lemma_with_match_once(
            emitter.emitted,
            fresh_ranked(emitter, ranked.drop_last(), query),
            ranked_result(emitter.radii, ranked.last().0, ranked.last().1, query),
        );
    }
}

/// A discovery result of an account that is still wanted is not below the requested
/// radii, and it carries the provider's rank exactly where it is off the graph.
pub proof fn law_discovery_reopens_no_lower_radius(
    emitter: EmitterContent,
    entry: EntryContent,
    rank: ProviderRank,
    radius_start: u8,
    query: Seq<char>,
)
    requires
        still_wanted(emitter, entry.account_id_hex, radius_start),
    ensures
        ranked_result(emitter.radii, entry, rank, query) matches Some(result) ==> {
            &&& result.radius >= radius_start
            &&& result.provider_rank == (if result.radius == OFF_GRAPH_SEARCH_RADIUS {
                Some(rank)
            } else {
                None
            })
        },
{
}

/// An account keeps the radius at which the search met it first.
pub proof fn law_first_radius_stays(
    radii: Map<Seq<char>, u8>,
    accounts: Seq<Seq<char>>,
    radius: u8,
    account: Seq<char>,
)
    ensures
        radii.dom().contains(account) ==> with_radii(radii, accounts, radius).dom().contains(account)
            && with_radii(radii, accounts, radius)[account] == radii[account],
        !radii.dom().contains(account) && accounts.contains(account) ==> with_radii(
            radii,
            accounts,
            radius,
        ).dom().contains(account) && with_radii(radii, accounts, radius)[account] == radius,
        !radii.dom().contains(account) && !accounts.contains(account) ==> !with_radii(
            radii,
            accounts,
            radius,
        ).dom().contains(account),
    decreases accounts.len(),
{
    if accounts.len() > 0 {
        let rest = accounts.drop_last();
        law_first_radius_stays(radii, rest, radius, account);
        assert(accounts =~= rest.push(accounts.last()));
        crate::order::lemma_push_contains(rest, accounts.last(), account);
    }
}

} // verus!
