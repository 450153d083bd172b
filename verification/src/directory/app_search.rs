//! Searching the follow graph that is cached on this device.

use crate::directory::app_entry::{accounts_keyed, keyed, parse_account_id_hex, parsed_id};
use crate::directory::app_state::{signs_now, AccountContent, ConfigContent, MarmotApp};
use crate::directory::cache::{closed_error, search_entry};
use crate::directory::entry::{EntryContent, UserDirectoryRecord};
use crate::directory::key_packages::outcome;
use crate::directory::search_match::{
    law_ranking_puts_the_best_first, record_match, result_lt, result_of, search_result, sort_user_search_results, user_record_match,
    ResultContent, UserDirectorySearchResult,
};
use crate::error::{AppError, ErrorContent};
use crate::order::{ascending_set, lemma_same_elements, sort_dedup, sorted_by};
use crate::text::{lowercase_text, lowercased, trim_text, trimmed};
use vstd::hash_set::StringHashSet;
use vstd::prelude::*;

verus! {

/// What to look for in the cached follow graph, and how far from the searcher.
#[derive(Debug, PartialEq, Eq)]
pub struct UserDirectorySearch {
    pub searcher_account_id_hex: String,
    pub query: String,
    /// First radius whose matches are returned, inclusive.
    pub radius_start: u8,
    /// Last radius whose matches are returned, inclusive.
    pub radius_end: u8,
    /// The most matches to return.
    pub limit: Option<usize>,
}

impl UserDirectorySearch {
    /// Rejects a window of radii that ends before it starts.
    pub fn validate(&self) -> (result: Result<(), AppError>)
        ensures
            result is Ok == (self.radius_start <= self.radius_end),
            result matches Err(error) ==> error.deep_view() == window_error(),
    {
        if self.radius_start > self.radius_end {
            return Err(
                AppError::InvalidDirectorySearch(
                    "radius_start must be less than or equal to radius_end".to_owned(),
                ),
            );
        }
        Ok(())
    }
}

/// How a window of radii that ends before it starts is refused.
pub open spec fn window_error() -> ErrorContent {
    ErrorContent::InvalidDirectorySearch("radius_start must be less than or equal to radius_end"@)
}

/// What the first cache of a signed-in account that knows an account says of it.
pub open spec fn searched(accounts: Seq<AccountContent>, id: Seq<char>, now: i64) -> Result<
    Option<EntryContent>,
    ErrorContent,
>
    decreases accounts.len(),
{
    if accounts.len() == 0 {
        Ok(None)
    } else if !signs_now(accounts[0]) {
        searched(accounts.drop_first(), id, now)
    } else if accounts[0].cache.closed {
        Err(closed_error())
    } else {
        match search_entry(accounts[0].cache, id, now) {
            Some(entry) => Ok(Some(entry)),
            None => searched(accounts.drop_first(), id, now),
        }
    }
}

/// Where a walk through the cached graph stands. `full` is set once as many
/// accounts were visited as may be.
#[verifier::ext_equal]
pub struct Walk {
    pub records: Seq<(EntryContent, u8)>,
    pub seen: Set<Seq<char>>,
    pub next: Seq<Seq<char>>,
    pub full: bool,
}

/// The next layer with those follows that were not visited, up to its limit.
pub open spec fn with_follows(
    next: Seq<Seq<char>>,
    seen: Set<Seq<char>>,
    follows: Seq<Seq<char>>,
    limit: usize,
) -> Seq<Seq<char>>
    decreases follows.len(),
{
    if follows.len() == 0 {
        next
    } else {
        let before = with_follows(next, seen, follows.drop_last(), limit);
        if before.len() >= limit || seen.contains(follows.last()) {
            before
        } else {
            before.push(follows.last())
        }
    }
}

/// The walk after one more account, at a radius. Its follows are taken into the
/// next layer unless this is the last one.
pub open spec fn visited(
    accounts: Seq<AccountContent>,
    config: ConfigContent,
    now: i64,
    walk: Walk,
    id: Seq<char>,
    radius: u8,
    last: bool,
) -> Result<Walk, ErrorContent> {
    if walk.seen.len() >= config.search_max_visited {
        Ok(Walk { full: true, ..walk })
    } else if walk.seen.contains(id) {
        Ok(walk)
    } else {
        let seen = walk.seen.insert(id);
        match searched(accounts, id, now) {
            Err(error) => Err(error),
            Ok(None) => Ok(Walk { seen, ..walk }),
            Ok(Some(entry)) => Ok(
                Walk {
                    records: walk.records.push((entry, radius)),
                    seen,
                    next: if last {
                        walk.next
                    } else {
                        with_follows(walk.next, seen, entry.follows, config.search_max_frontier)
                    },
                    full: false,
                },
            ),
        }
    }
}

/// The walk after a whole layer, or after the account at which it became full.
pub open spec fn layer_walked(
    accounts: Seq<AccountContent>,
    config: ConfigContent,
    now: i64,
    walk: Walk,
    frontier: Seq<Seq<char>>,
    radius: u8,
    last: bool,
) -> Result<Walk, ErrorContent>
    decreases frontier.len(),
{
    if frontier.len() == 0 {
        Ok(walk)
    } else {
        match visited(accounts, config, now, walk, frontier[0], radius, last) {
            Err(error) => Err(error),
            Ok(walk) => if walk.full {
                Ok(walk)
            } else {
                layer_walked(accounts, config, now, walk, frontier.drop_first(), radius, last)
            },
        }
    }
}

/// The walk from a layer at a radius on: each layer is visited in ascending order,
/// and what its accounts follow is the next one.
pub open spec fn walked(
    accounts: Seq<AccountContent>,
    config: ConfigContent,
    now: i64,
    walk: Walk,
    radius: int,
    radius_end: u8,
) -> Result<Walk, ErrorContent>
    decreases radius_end - radius,
{
    let start = Walk { next: Seq::empty(), ..walk };
    let frontier = ascending_set(walk.next);
    match layer_walked(
        accounts,
        config,
        now,
        start,
        frontier,
        radius as u8,
        radius >= radius_end,
    ) {
        Err(error) => Err(error),
        Ok(walk) => if walk.full || radius >= radius_end {
            Ok(walk)
        } else {
            walked(accounts, config, now, walk, radius + 1, radius_end)
        },
    }
}

/// The start of a walk: the searcher alone.
pub open spec fn walk_from(id: Seq<char>) -> Walk {
    Walk { records: Seq::empty(), seen: Set::empty(), next: seq![id], full: false }
}

/// The accounts that a walk from a searcher finds, each with its radius.
pub open spec fn graph_records(
    accounts: Seq<AccountContent>,
    config: ConfigContent,
    now: i64,
    searcher: Seq<char>,
    radius_end: u8,
) -> Result<Seq<(EntryContent, u8)>, ErrorContent> {
    match parsed_id(searcher) {
        Err(error) => Err(error),
        Ok(id) => match walked(accounts, config, now, walk_from(id), 0, radius_end) {
            Err(error) => Err(error),
            Ok(walk) => Ok(walk.records),
        },
    }
}

/// The matches of a query among accounts whose radius is in a window.
pub open spec fn matches_in(
    records: Seq<(EntryContent, u8)>,
    radius_start: u8,
    radius_end: u8,
    query: Seq<char>,
) -> Seq<ResultContent>
    decreases records.len(),
{
    if records.len() == 0 {
        Seq::empty()
    } else {
        let before = matches_in(records.drop_last(), radius_start, radius_end, query);
        let (entry, radius) = records.last();
        if radius < radius_start || radius > radius_end {
            before
        } else {
            match record_match(entry, query) {
                None => before,
                Some(found) => before.push(result_of(entry, radius, found, None)),
            }
        }
    }
}

/// The first results, as many as a limit allows.
pub open spec fn limited(results: Seq<ResultContent>, limit: Option<usize>) -> Seq<ResultContent> {
    match limit {
        Some(limit) => if limit < results.len() {
            results.take(limit as int)
        } else {
            results
        },
        None => results,
    }
}

/// The content of a [`UserDirectorySearch`].
#[verifier::ext_equal]
pub struct SearchContent {
    pub searcher_account_id_hex: Seq<char>,
    pub query: Seq<char>,
    pub radius_start: u8,
    pub radius_end: u8,
    pub limit: Option<usize>,
}

impl DeepView for UserDirectorySearch {
    type V = SearchContent;

    open spec fn deep_view(&self) -> SearchContent {
        SearchContent {
            searcher_account_id_hex: self.searcher_account_id_hex@,
            query: self.query@,
            radius_start: self.radius_start,
            radius_end: self.radius_end,
            limit: self.limit,
        }
    }
}

/// What a search of the cached graph answers. An empty query matches nobody.
pub open spec fn search_outcome(
    accounts: Seq<AccountContent>,
    config: ConfigContent,
    now: i64,
    search: SearchContent,
) -> Result<Seq<ResultContent>, ErrorContent> {
    if search.radius_start > search.radius_end {
        Err(window_error())
    } else {
        match graph_records(
            accounts,
            config,
            now,
            search.searcher_account_id_hex,
            search.radius_end,
        ) {
            Err(error) => Err(error),
            Ok(records) => {
                let query = lowercased(trimmed(search.query));
                if query.len() == 0 {
                    Ok(Seq::empty())
                } else {
                    Ok(
                        limited(
                            sorted_by(
                                matches_in(records, search.radius_start, search.radius_end, query),
                                result_lt(),
                            ),
                            search.limit,
                        ),
                    )
                }
            },
        }
    }
}

fn push_follows(next: &mut Vec<String>, seen: &StringHashSet, follows: &Vec<String>, limit: usize)
    ensures
        final(next).deep_view() == with_follows(
            old(next).deep_view(),
            seen@,
            follows.deep_view(),
            limit,
        ),
{
    let ghost start = next.deep_view();
    let ghost all = follows.deep_view();
    let mut i: usize = 0;
    assert(all.take(0) =~= Seq::<Seq<char>>::empty());
    while i < follows.len()
        invariant
            i <= follows@.len(),
            all == follows.deep_view(),
            next.deep_view() == with_follows(start, seen@, all.take(i as int), limit),
        decreases follows.len() - i,
    {
        assert(all.take(i + 1).drop_last() =~= all.take(i as int));
        assert(all.take(i + 1).last() == follows@[i as int]@);
        let ghost before = next.deep_view();
        if next.len() < limit && !seen.contains(follows[i].as_str()) {
            next.push(follows[i].clone());
            assert(next.deep_view() =~= before.push(follows@[i as int]@));
        }
        i += 1;
    }
    assert(all.take(all.len() as int) =~= all);
}

/// Where a walk stands.
struct Walker {
    records: Vec<(UserDirectoryRecord, u8)>,
    seen: StringHashSet,
    next: Vec<String>,
    full: bool,
}

impl Walker {
    spec fn content(&self) -> Walk {
        Walk {
            records: self.records.deep_view(),
            seen: self.seen@,
            next: self.next.deep_view(),
            full: self.full,
        }
    }
}

impl MarmotApp {
    /// What the first cache of a signed-in account that knows an account says of it.
    pub fn directory_search_record_from_caches(&self, account_id_hex: &str, now: i64) -> (result:
        Result<Option<UserDirectoryRecord>, AppError>)
        ensures
            outcome(result) == searched(self@.accounts, account_id_hex@, now),
    {
        let ghost all = self.accounts.deep_view();
        let mut i: usize = 0;
        assert(all.skip(0) =~= all);
        while i < self.accounts.len()
            invariant
                i <= self.accounts@.len(),
                all == self.accounts.deep_view(),
                searched(all, account_id_hex@, now) == searched(
                    all.skip(i as int),
                    account_id_hex@,
                    now,
                ),
            decreases self.accounts.len() - i,
        {
            assert(all.skip(i as int)[0] == self.accounts@[i as int].deep_view());
            assert(all.skip(i as int).drop_first() =~= all.skip(i + 1));
            if self.accounts[i].is_active_signing() {
                match self.accounts[i].cache.search_record(account_id_hex, now) {
                    Err(error) => return Err(error),
                    Ok(Some(entry)) => return Ok(Some(entry)),
                    Ok(None) => {},
                }
            }
            i += 1;
        }
        Ok(None)
    }

    fn visit(&self, walker: &mut Walker, id: &String, radius: u8, last: bool, now: i64) -> (fault:
        Option<AppError>)
        requires
            !old(walker).full,
        ensures
            match fault {
                Some(error) => visited(
                    self@.accounts,
                    self@.config,
                    now,
                    old(walker).content(),
                    id@,
                    radius,
                    last,
                ) == Err::<Walk, ErrorContent>(error.deep_view()),
                None => visited(
                    self@.accounts,
                    self@.config,
                    now,
                    old(walker).content(),
                    id@,
                    radius,
                    last,
                ) == Ok::<Walk, ErrorContent>(final(walker).content()),
            },
    {
        let ghost start = walker.content();
        if walker.seen.len() >= self.config.search_max_visited {
            walker.full = true;
            return None;
        }
        if !walker.seen.insert(id.clone()) {
            assert(walker.content().seen =~= start.seen);
            return None;
        }
        match self.directory_search_record_from_caches(id.as_str(), now) {
            Err(error) => Some(error),
            Ok(None) => None,
            Ok(Some(entry)) => {
                if !last {
                    push_follows(
                        &mut walker.next,
                        &walker.seen,
                        &entry.follows,
                        self.config.search_max_frontier,
                    );
                }
                let ghost added = (entry.deep_view(), radius);
                walker.records.push((entry, radius));
                assert(walker.records.deep_view() =~= start.records.push(added));
                None
            },
        }
    }

    fn walk_layer(
        &self,
        walker: &mut Walker,
        frontier: &Vec<String>,
        radius: u8,
        last: bool,
        now: i64,
    ) -> (fault: Option<AppError>)
        requires
            !old(walker).full,
        ensures
            match fault {
                Some(error) => layer_walked(
                    self@.accounts,
                    self@.config,
                    now,
                    old(walker).content(),
                    frontier.deep_view(),
                    radius,
                    last,
                ) == Err::<Walk, ErrorContent>(error.deep_view()),
                None => layer_walked(
                    self@.accounts,
                    self@.config,
                    now,
                    old(walker).content(),
                    frontier.deep_view(),
                    radius,
                    last,
                ) == Ok::<Walk, ErrorContent>(final(walker).content()),
            },
    {
        let ghost all = frontier.deep_view();
        let ghost start = walker.content();
        let ghost app = self@;
        let mut i: usize = 0;
        assert(all.skip(0) =~= all);
        while i < frontier.len()
            invariant
                i <= frontier@.len(),
                all == frontier.deep_view(),
                app == self@,
                start == old(walker).content(),
                !walker.full,
                layer_walked(app.accounts, app.config, now, start, all, radius, last)
                    == layer_walked(
                    app.accounts,
                    app.config,
                    now,
                    walker.content(),
                    all.skip(i as int),
                    radius,
                    last,
                ),
            decreases frontier.len() - i,
        {
            assert(all.skip(i as int)[0] == frontier@[i as int]@);
            assert(all.skip(i as int).drop_first() =~= all.skip(i + 1));
            if let Some(error) = self.visit(walker, &frontier[i], radius, last, now) {
                return Some(error);
            }
            if walker.full {
                return None;
            }
            i += 1;
        }
        None
    }

    /// The accounts that a walk through the cached graph finds, each with its
    /// radius. One time is used for the whole walk, so that a layer cannot disagree
    /// with itself about which profiles expired.
    pub fn directory_search_records(
        &self,
        searcher_account_id_hex: &str,
        radius_end: u8,
        now: i64,
    ) -> (result: Result<Vec<(UserDirectoryRecord, u8)>, AppError>)
        ensures
            outcome(result) == graph_records(
                self@.accounts,
                self@.config,
                now,
                searcher_account_id_hex@,
                radius_end,
            ),
    {
        let searcher = match parse_account_id_hex(searcher_account_id_hex) {
            Ok(id) => id,
            Err(error) => return Err(error),
        };
        let ghost app = self@;
        let ghost id = searcher@;
        let mut walker = Walker {
            records: Vec::new(),
            seen: StringHashSet::new(),
            next: vec![searcher],
            full: false,
        };
        assert(walker.content() =~= walk_from(id));
        let mut radius: u8 = 0;
        loop
            invariant
                radius <= radius_end,
                !walker.full,
                app == self@,
                parsed_id(searcher_account_id_hex@) == Ok::<Seq<char>, ErrorContent>(id),
                walked(app.accounts, app.config, now, walk_from(id), 0, radius_end) == walked(
                    app.accounts,
                    app.config,
                    now,
                    walker.content(),
                    radius as int,
                    radius_end,
                ),
            decreases radius_end - radius,
        {
            let ghost before = walker.content();
            let mut frontier: Vec<String> = Vec::new();
            core::mem::swap(&mut frontier, &mut walker.next);
            assert(walker.content() =~= (Walk { next: Seq::empty(), ..before }));
            let frontier = sort_dedup(frontier);
            let last = radius >= radius_end;
            if let Some(error) = self.walk_layer(&mut walker, &frontier, radius, last, now) {
                return Err(error);
            }
            if walker.full || last {
                return Ok(walker.records);
            }
            radius += 1;
        }
    }

    /// Searches the follow graph that is cached on this device. Matches come best
    /// first.
    pub fn search_user_directory(&self, search: UserDirectorySearch, now: i64) -> (result: Result<
        Vec<UserDirectorySearchResult>,
        AppError,
    >)
        ensures
            outcome(result) == search_outcome(
                self@.accounts,
                self@.config,
                now,
                search.deep_view(),
            ),
    {
        if let Err(error) = search.validate() {
            return Err(error);
        }
        let records = match self.directory_search_records(
            search.searcher_account_id_hex.as_str(),
            search.radius_end,
            now,
        ) {
            Ok(records) => records,
            Err(error) => return Err(error),
        };
        let query = lowercase_text(trim_text(search.query.as_str()).as_str());
        let mut results: Vec<UserDirectorySearchResult> = Vec::new();
        assert(results.deep_view() =~= Seq::<ResultContent>::empty());
        if query.as_str().is_empty() {
            return Ok(results);
        }
        let ghost all = records.deep_view();
        let mut i: usize = 0;
        assert(all.take(0) =~= Seq::<(EntryContent, u8)>::empty());
        while i < records.len()
            invariant
                i <= records@.len(),
                all == records.deep_view(),
                results.deep_view() == matches_in(
                    all.take(i as int),
                    search.radius_start,
                    search.radius_end,
                    query@,
                ),
            decreases records.len() - i,
        {
            assert(all.take(i + 1).drop_last() =~= all.take(i as int));
            assert(all.take(i + 1).last() == records@[i as int].deep_view());
            let ghost before = results.deep_view();
            let record = &records[i].0;
            let radius: u8 = records[i].1;
            if radius >= search.radius_start && radius <= search.radius_end {
                if let Some(found) = user_record_match(record, query.as_str()) {
                    let result = search_result(record, radius, found, None);
                    let ghost added = result.deep_view();
                    results.push(result);
                    assert(results.deep_view() =~= before.push(added));
                }
            }
            i += 1;
        }
        assert(all.take(all.len() as int) =~= all);
        sort_user_search_results(&mut results);
        if let Some(limit) = search.limit {
            let ghost before = results.deep_view();
            results.truncate(limit);
            assert(results.deep_view() =~= limited(before, search.limit));
        }
        Ok(results)
    }
}

pub proof fn lemma_searched_names(accounts: Seq<AccountContent>, id: Seq<char>, now: i64)
    requires
        accounts_keyed(accounts),
    ensures
        searched(accounts, id, now) matches Ok(Some(entry)) ==> entry.account_id_hex == id,
    decreases accounts.len(),
{
    if accounts.len() > 0 {
        let rest = accounts.drop_first();
        assert(keyed(accounts[0].cache.users));
        assert forall|i: int| 0 <= i < rest.len() implies keyed(
            (#[trigger] rest[i]).cache.users,
        ) by {
            assert(rest[i] == accounts[i + 1]);
        }
        lemma_searched_names(rest, id, now);
        if accounts[0].cache.users.dom().contains(id) {
            assert(accounts[0].cache.users[id].account_id_hex == id);
        }
    }
}

/// What holds of a walk at any time: it found no more accounts than it visited, no
/// account twice, and visited no more than it may.
pub open spec fn walk_bounded(walk: Walk, limit: usize, radius: int) -> bool {
    &&& walk.seen.finite()
    &&& walk.records.len() <= walk.seen.len() <= limit
    &&& forall|i: int|
        0 <= i < walk.records.len() ==> walk.seen.contains(
            (#[trigger] walk.records[i]).0.account_id_hex,
        ) && walk.records[i].1 <= radius
    &&& forall|i: int, j: int|
        0 <= i < j < walk.records.len() ==> (#[trigger] walk.records[i]).0.account_id_hex != (
        #[trigger] walk.records[j]).0.account_id_hex && walk.records[i].1 <= walk.records[j].1
}

proof fn lemma_visited_bounded(
    accounts: Seq<AccountContent>,
    config: ConfigContent,
    now: i64,
    walk: Walk,
    id: Seq<char>,
    radius: u8,
    last: bool,
)
    requires
        accounts_keyed(accounts),
        walk_bounded(walk, config.search_max_visited, radius as int),
    ensures
        visited(accounts, config, now, walk, id, radius, last) matches Ok(after) ==> walk_bounded(
            after,
            config.search_max_visited,
            radius as int,
        ),
{
    lemma_searched_names(accounts, id, now);
    if let Ok(after) = visited(accounts, config, now, walk, id, radius, last) {
        assert forall|i: int, j: int| 0 <= i < j < after.records.len() implies (
        #[trigger] after.records[i]).0.account_id_hex != (
        #[trigger] after.records[j]).0.account_id_hex && after.records[i].1
            <= after.records[j].1 by {
            assert(after.records[i] == walk.records[i]);
            if j < walk.records.len() {
                assert(after.records[j] == walk.records[j]);
            }
        }
    }
}

proof fn lemma_layer_bounded(
    accounts: Seq<AccountContent>,
    config: ConfigContent,
    now: i64,
    walk: Walk,
    frontier: Seq<Seq<char>>,
    radius: u8,
    last: bool,
)
    requires
        accounts_keyed(accounts),
        walk_bounded(walk, config.search_max_visited, radius as int),
    ensures
        layer_walked(accounts, config, now, walk, frontier, radius, last) matches Ok(after)
            ==> walk_bounded(after, config.search_max_visited, radius as int),
    decreases frontier.len(),
{
    if frontier.len() > 0 {
        lemma_visited_bounded(accounts, config, now, walk, frontier[0], radius, last);
        if let Ok(after) = visited(accounts, config, now, walk, frontier[0], radius, last) {
            lemma_layer_bounded(
                accounts,
                config,
                now,
                after,
                frontier.drop_first(),
                radius,
                last,
            );
        }
    }
}

proof fn lemma_walk_bounded(
    accounts: Seq<AccountContent>,
    config: ConfigContent,
    now: i64,
    walk: Walk,
    radius: int,
    radius_end: u8,
)
    requires
        accounts_keyed(accounts),
        0 <= radius <= radius_end,
        walk_bounded(walk, config.search_max_visited, radius),
    ensures
        walked(accounts, config, now, walk, radius, radius_end) matches Ok(after) ==> walk_bounded(
            after,
            config.search_max_visited,
            radius_end as int,
        ),
    decreases radius_end - radius,
{
    let start = Walk { next: Seq::empty(), ..walk };
    let frontier = ascending_set(walk.next);
    let last = radius >= radius_end;
    lemma_layer_bounded(accounts, config, now, start, frontier, radius as u8, last);
    if let Ok(after) = layer_walked(accounts, config, now, start, frontier, radius as u8, last) {
        if !(after.full || last) {
            lemma_walk_bounded(accounts, config, now, after, radius + 1, radius_end);
        }
    }
}

/// A walk through the cached graph finds no more accounts than it may visit, none
/// of them twice and none beyond the last radius, and it finds near accounts before
/// far ones.
pub proof fn law_walk_is_bounded(
    accounts: Seq<AccountContent>,
    config: ConfigContent,
    now: i64,
    searcher: Seq<char>,
    radius_end: u8,
)
    requires
        accounts_keyed(accounts),
    ensures
        graph_records(accounts, config, now, searcher, radius_end) matches Ok(records) ==> {
            &&& records.len() <= config.search_max_visited
            &&& forall|i: int|
                0 <= i < records.len() ==> (#[trigger] records[i]).1 <= radius_end
            &&& forall|i: int, j: int|
                0 <= i < j < records.len() ==> (#[trigger] records[i]).0.account_id_hex != (
                #[trigger] records[j]).0.account_id_hex && records[i].1 <= records[j].1
        },
{
    if let Ok(id) = parsed_id(searcher) {
        lemma_walk_bounded(accounts, config, now, walk_from(id), 0, radius_end);
    }
}

proof fn lemma_matches_in(
    records: Seq<(EntryContent, u8)>,
    radius_start: u8,
    radius_end: u8,
    query: Seq<char>,
)
    ensures
        forall|r: ResultContent|
            #[trigger] matches_in(records, radius_start, radius_end, query).contains(r)
                ==> radius_start <= r.radius <= radius_end && r.provider_rank is None,
    decreases records.len(),
{
    if records.len() > 0 {
        let before = matches_in(records.drop_last(), radius_start, radius_end, query);
        lemma_matches_in(records.drop_last(), radius_start, radius_end, query);
        let all = matches_in(records, radius_start, radius_end, query);
        assert forall|r: ResultContent| #[trigger] all.contains(r) implies radius_start <= r.radius
            <= radius_end && r.provider_rank is None by {
            let i = choose|i: int| 0 <= i < all.len() && all[i] == r;
            if i < before.len() {
                assert(before.contains(before[i]));
            }
        }
    }
}

/// A search of the cached graph returns accounts in the requested radii alone, none
/// ranked by a provider, and no more than its limit.
pub proof fn law_search_stays_in_its_window(
    accounts: Seq<AccountContent>,
    config: ConfigContent,
    now: i64,
    search: SearchContent,
)
    ensures
        search_outcome(accounts, config, now, search) matches Ok(results) ==> {
            &&& forall|i: int|
                0 <= i < results.len() ==> search.radius_start <= (#[trigger] results[i]).radius
                    <= search.radius_end && results[i].provider_rank is None
            &&& search.limit matches Some(limit) ==> results.len() <= limit
        },
{
    if let Ok(results) = search_outcome(accounts, config, now, search) {
        let records = graph_records(
            accounts,
            config,
            now,
            search.searcher_account_id_hex,
            search.radius_end,
        )->Ok_0;
        let query = lowercased(trimmed(search.query));
        if query.len() > 0 {
            let found = matches_in(records, search.radius_start, search.radius_end, query);
            let ranked = sorted_by(found, result_lt());
            lemma_matches_in(records, search.radius_start, search.radius_end, query);
            law_ranking_puts_the_best_first(found);
            lemma_same_elements(ranked, found);
            assert forall|i: int| 0 <= i < results.len() implies search.radius_start <= (
            #[trigger] results[i]).radius <= search.radius_end && results[i].provider_rank is None by {
                assert(results[i] == ranked[i]);
                assert(ranked.contains(ranked[i]));
                assert(found.contains(ranked[i]));
            }
        }
    }
}

} // verus!
