//! What a streaming search reads from this device and keeps on it.

use crate::collections::{copy_list, list_contains, Key};
use crate::directory::app_entry::{
    empty_entry, entry_of, lossy_npub, npub_for_account_id_lossy, Gate,
};
use crate::directory::app_fetch::{latest_contact_list, latest_follow_list_from_records};
use crate::directory::app_ingest::follow_list_of;
use crate::directory::app_state::{signs_now, AccountContent, AppContent, MarmotApp};
use crate::directory::cache::{
    closed_error, graph_entry, graph_fault, known_follows, with_graph_follows, with_graph_record,
    CacheContent, DirectoryCache, DirectorySearchGraphRecord, GraphRecordContent,
    SEARCH_GRAPH_PROFILE_TTL_SECONDS,
};
use crate::directory::entry::{
    copy_optional, EntryContent, ProfileContent, UserDirectoryRecord, UserProfileMetadata,
};
use crate::directory::key_packages::outcome;
use crate::directory::records::{DirectoryFreshness, EventRecordContent, RelayEventRecord};
use crate::directory::search::{RankedDirectoryRecord, RankedPubkey};
use crate::directory::search_match::ProviderRank;
use crate::error::{AppError, ErrorContent};
use vstd::prelude::*;

verus! {

/// The first account of the search graph with a profile that did not expire.
pub open spec fn graph_profile(accounts: Seq<AccountContent>, id: Seq<char>, now: i64) -> Result<
    Option<EntryContent>,
    ErrorContent,
>
    decreases accounts.len(),
{
    if accounts.len() == 0 {
        Ok(None)
    } else if !signs_now(accounts[0]) {
        graph_profile(accounts.drop_first(), id, now)
    } else if accounts[0].cache.closed {
        Err(closed_error())
    } else {
        match graph_entry(accounts[0].cache, id, now) {
            Some(entry) => if entry.profile is Some {
                Ok(Some(entry))
            } else {
                graph_profile(accounts.drop_first(), id, now)
            },
            None => graph_profile(accounts.drop_first(), id, now),
        }
    }
}

/// What this device can match of an account: a known user with a profile, or else a
/// profile of the search graph.
pub open spec fn local_record(app: AppContent, id: Seq<char>, now: i64) -> Result<
    Option<EntryContent>,
    ErrorContent,
> {
    match entry_of(app, id, Gate::Inspect) {
        Err(error) => Err(error),
        Ok(Some(entry)) => if entry.profile is Some {
            Ok(Some(entry))
        } else {
            graph_profile(app.accounts, id, now)
        },
        Ok(None) => graph_profile(app.accounts, id, now),
    }
}

/// A layer split into what this device can match and who needs to be asked for,
/// beside those that were split already.
pub open spec fn locally_known(
    app: AppContent,
    frontier: Seq<Seq<char>>,
    now: i64,
    known: Seq<EntryContent>,
    missing: Seq<Seq<char>>,
) -> Result<(Seq<EntryContent>, Seq<Seq<char>>), ErrorContent>
    decreases frontier.len(),
{
    if frontier.len() == 0 {
        Ok((known, missing))
    } else {
        let rest = frontier.drop_first();
        match local_record(app, frontier[0], now) {
            Err(error) => Err(error),
            Ok(Some(entry)) => locally_known(app, rest, now, known.push(entry), missing),
            Ok(None) => locally_known(app, rest, now, known, missing.push(frontier[0])),
        }
    }
}

/// The follows of an account that a search graph of this device knows.
pub open spec fn cached_follows(accounts: Seq<AccountContent>, id: Seq<char>) -> Result<
    Option<Seq<Seq<char>>>,
    ErrorContent,
>
    decreases accounts.len(),
{
    if accounts.len() == 0 {
        Ok(None)
    } else if !signs_now(accounts[0]) {
        cached_follows(accounts.drop_first(), id)
    } else if accounts[0].cache.closed {
        Err(closed_error())
    } else {
        match known_follows(accounts[0].cache, id) {
            Some(follows) => Ok(Some(follows)),
            None => cached_follows(accounts.drop_first(), id),
        }
    }
}

/// A layer split into the contact lists that are known and the accounts whose list
/// was never seen, beside those that were split already.
pub open spec fn follows_known(
    accounts: Seq<AccountContent>,
    frontier: Seq<Seq<char>>,
    cached: Seq<Seq<Seq<char>>>,
    unknown: Seq<Seq<char>>,
) -> Result<(Seq<Seq<Seq<char>>>, Seq<Seq<char>>), ErrorContent>
    decreases frontier.len(),
{
    if frontier.len() == 0 {
        Ok((cached, unknown))
    } else {
        let rest = frontier.drop_first();
        match cached_follows(accounts, frontier[0]) {
            Err(error) => Err(error),
            Ok(Some(follows)) => follows_known(accounts, rest, cached.push(follows), unknown),
            Ok(None) => follows_known(accounts, rest, cached, unknown.push(frontier[0])),
        }
    }
}

/// The last profile that was fetched of an account.
pub open spec fn last_profile(profiles: Seq<(Seq<char>, ProfileContent)>, id: Seq<char>) -> Option<
    ProfileContent,
>
    decreases profiles.len(),
{
    if profiles.len() == 0 {
        None
    } else if profiles.last().0 == id {
        Some(profiles.last().1)
    } else {
        last_profile(profiles.drop_last(), id)
    }
}

/// The profile that an account of a batch is given: an account that stands in the
/// batch more than once is given it the first time.
pub open spec fn given_profile(
    batch: Seq<Seq<char>>,
    i: int,
    profiles: Seq<(Seq<char>, ProfileContent)>,
) -> Option<ProfileContent> {
    if batch.take(i).contains(batch[i]) {
        None
    } else {
        last_profile(profiles, batch[i])
    }
}

/// The account of each position of a batch, with the profile that was fetched of it.
pub open spec fn profile_entries(
    app: AppContent,
    batch: Seq<Seq<char>>,
    profiles: Seq<(Seq<char>, ProfileContent)>,
) -> Seq<EntryContent> {
    Seq::new(
        batch.len(),
        |i: int|
            EntryContent {
                profile: given_profile(batch, i, profiles),
                ..empty_entry(app, batch[i])
            },
    )
}

/// Whether a list of profiles holds one of an account.
pub open spec fn has_profile(profiles: Seq<(Seq<char>, ProfileContent)>, id: Seq<char>) -> bool {
    last_profile(profiles, id) is Some
}

/// One account for each that a profile was fetched of, with its last profile.
pub open spec fn entries_of_profiles(app: AppContent, profiles: Seq<(Seq<char>, ProfileContent)>)
    -> Seq<EntryContent>
    decreases profiles.len(),
{
    if profiles.len() == 0 {
        Seq::empty()
    } else {
        let rest = profiles.drop_first();
        let later = entries_of_profiles(app, rest);
        let (id, profile) = profiles[0];
        if has_profile(rest, id) {
            later
        } else {
            seq![EntryContent { profile: Some(profile), ..empty_entry(app, id) }] + later
        }
    }
}

/// The ranked accounts that a profile was fetched of.
pub open spec fn hydrated_ranked(
    app: AppContent,
    ranked: Seq<(Seq<char>, ProviderRank)>,
    profiles: Seq<(Seq<char>, ProfileContent)>,
) -> Seq<(EntryContent, ProviderRank)>
    decreases ranked.len(),
{
    if ranked.len() == 0 {
        Seq::empty()
    } else {
        let before = hydrated_ranked(app, ranked.drop_last(), profiles);
        let (id, rank) = ranked.last();
        if names(ranked.drop_last()).contains(id) {
            before
        } else {
            match last_profile(profiles, id) {
                None => before,
                Some(profile) => before.push(
                    (EntryContent { profile: Some(profile), ..empty_entry(app, id) }, rank),
                ),
            }
        }
    }
}

pub open spec fn names(ranked: Seq<(Seq<char>, ProviderRank)>) -> Seq<Seq<char>> {
    ranked.map_values(|r: (Seq<char>, ProviderRank)| r.0)
}

/// The last profile that accounts carry of an identity.
pub open spec fn carried_profile(records: Seq<EntryContent>, id: Seq<char>) -> Option<ProfileContent>
    decreases records.len(),
{
    if records.len() == 0 {
        None
    } else if records.last().account_id_hex == id && records.last().profile is Some {
        records.last().profile
    } else {
        carried_profile(records.drop_last(), id)
    }
}

pub open spec fn ids_of(records: Seq<EntryContent>) -> Seq<Seq<char>> {
    records.map_values(|r: EntryContent| r.account_id_hex)
}

/// An account that waits for a profile, with the one that others carry of it. Where
/// it waits more than once, the first takes it.
pub open spec fn refilled(pending: Seq<EntryContent>, i: int, outboxed: Seq<EntryContent>)
    -> EntryContent {
    let id = pending[i].account_id_hex;
    if ids_of(pending).take(i).contains(id) {
        pending[i]
    } else {
        match carried_profile(outboxed, id) {
            Some(profile) => EntryContent { profile: Some(profile), ..pending[i] },
            None => pending[i],
        }
    }
}

/// The accounts that wait for a profile, with those that others carry of them.
pub open spec fn all_refilled(pending: Seq<EntryContent>, outboxed: Seq<EntryContent>) -> Seq<
    EntryContent,
> {
    Seq::new(pending.len(), |i: int| refilled(pending, i, outboxed))
}

/// The contact lists that were fetched of a batch, one for each account that a list
/// came back for.
pub open spec fn fetched_lists(
    batch: Seq<Seq<char>>,
    records: Seq<EventRecordContent>,
    freshness: DirectoryFreshness,
) -> Seq<(Seq<char>, Seq<Seq<char>>)>
    decreases batch.len(),
{
    if batch.len() == 0 {
        Seq::empty()
    } else {
        let before = fetched_lists(batch.drop_last(), records, freshness);
        if batch.drop_last().contains(batch.last()) {
            before
        } else {
            match latest_contact_list(records, batch.last(), freshness) {
                None => before,
                Some(record) => before.push((batch.last(), follow_list_of(record).follows)),
            }
        }
    }
}

/// Something that a search learned of an account.
#[derive(Debug)]
pub enum SearchFinding {
    Profile(DirectorySearchGraphRecord),
    Follows { account_id_hex: String, follows: Vec<String> },
}

/// The content of a [`SearchFinding`].
#[verifier::ext_equal]
pub enum FindingContent {
    Profile(GraphRecordContent),
    Follows { account_id_hex: Seq<char>, follows: Seq<Seq<char>> },
}

impl DeepView for SearchFinding {
    type V = FindingContent;

    open spec fn deep_view(&self) -> FindingContent {
        match self {
            SearchFinding::Profile(record) => FindingContent::Profile(record.deep_view()),
            SearchFinding::Follows { account_id_hex, follows } => FindingContent::Follows {
                account_id_hex: account_id_hex@,
                follows: follows.deep_view(),
            },
        }
    }
}

/// A cache after one finding, and what kept it from being stored.
pub open spec fn with_finding(cache: CacheContent, finding: FindingContent) -> (
    CacheContent,
    Option<ErrorContent>,
) {
    if cache.closed {
        (cache, Some(closed_error()))
    } else {
        match finding {
            FindingContent::Profile(record) => {
                let fault = match record.follows {
                    Some(follows) => graph_fault(follows),
                    None => None,
                };
                if fault is Some {
                    (cache, fault)
                } else {
                    (with_graph_record(cache, record), None)
                }
            },
            FindingContent::Follows { account_id_hex, follows } => if graph_fault(
                follows,
            ) is Some {
                (cache, graph_fault(follows))
            } else {
                (
                    with_graph_follows(
                        cache,
                        account_id_hex,
                        lossy_npub(account_id_hex),
                        follows,
                    ),
                    None,
                )
            },
        }
    }
}

/// A cache after findings, the first that cannot be stored ends it.
pub open spec fn with_findings(cache: CacheContent, findings: Seq<FindingContent>) -> (
    CacheContent,
    Option<ErrorContent>,
)
    decreases findings.len(),
{
    if findings.len() == 0 {
        (cache, None)
    } else {
        let (after, fault) = with_finding(cache, findings[0]);
        if fault is Some {
            (after, fault)
        } else {
            with_findings(after, findings.drop_first())
        }
    }
}

/// The accounts after findings were stored with each that is signed in, the first
/// that cannot be stored ends it.
pub open spec fn findings_spread(accounts: Seq<AccountContent>, findings: Seq<FindingContent>) -> (
    Seq<AccountContent>,
    Option<ErrorContent>,
)
    decreases accounts.len(),
{
    if accounts.len() == 0 {
        (accounts, None)
    } else {
        let rest = accounts.drop_first();
        if !signs_now(accounts[0]) {
            let (after, fault) = findings_spread(rest, findings);
            (seq![accounts[0]] + after, fault)
        } else {
            let (cache, fault) = with_findings(accounts[0].cache, findings);
            let account = AccountContent { cache, ..accounts[0] };
            if fault is Some {
                (seq![account] + rest, fault)
            } else {
                let (after, fault) = findings_spread(rest, findings);
                (seq![account] + after, fault)
            }
        }
    }
}

/// What a search keeps of accounts that it resolved: those with a profile, for as
/// long as a profile is kept.
pub open spec fn profile_findings(records: Seq<EntryContent>, now: i64) -> Seq<FindingContent>
    decreases records.len(),
{
    if records.len() == 0 {
        Seq::empty()
    } else {
        let before = profile_findings(records.drop_last(), now);
        let record = records.last();
        match record.profile {
            None => before,
            Some(profile) => before.push(
                FindingContent::Profile(
                    GraphRecordContent {
                        account_id_hex: record.account_id_hex,
                        npub: record.npub,
                        profile: Some(profile),
                        follows: None,
                        metadata_updated_at: Some(profile.created_at),
                        metadata_expires_at: Some(
                            (now + SEARCH_GRAPH_PROFILE_TTL_SECONDS) as u64,
                        ),
                    },
                ),
            ),
        }
    }
}

/// What a search keeps of contact lists.
pub open spec fn follow_findings(fetched: Seq<(Seq<char>, Seq<Seq<char>>)>) -> Seq<FindingContent> {
    fetched.map_values(
        |f: (Seq<char>, Seq<Seq<char>>)|
            FindingContent::Follows { account_id_hex: f.0, follows: f.1 },
    )
}

/// The outcome of storing findings.
pub open spec fn kept(
    before: AppContent,
    findings: Seq<FindingContent>,
    after: AppContent,
    result: Result<(), AppError>,
) -> bool {
    let (accounts, fault) = findings_spread(before.accounts, findings);
    &&& after == AppContent { accounts, ..before }
    &&& match result {
        Ok(()) => fault is None,
        Err(error) => fault == Some(error.deep_view()),
    }
}

fn store_finding(cache: &mut DirectoryCache, finding: &SearchFinding) -> (fault: Option<AppError>)
    ensures
        (final(cache)@, fault.deep_view()) == with_finding(old(cache)@, finding.deep_view()),
{
    let result = match finding {
        SearchFinding::Profile(record) => cache.put_search_graph_record(record),
        SearchFinding::Follows { account_id_hex, follows } => cache.remember_search_graph_follows(
            account_id_hex.as_str(),
            npub_for_account_id_lossy(account_id_hex.as_str()).as_str(),
            follows,
        ),
    };
    match result {
        Ok(()) => None,
        Err(error) => Some(error),
    }
}

fn store_findings(cache: &mut DirectoryCache, findings: &Vec<SearchFinding>) -> (fault: Option<
    AppError,
>)
    ensures
        (final(cache)@, fault.deep_view()) == with_findings(old(cache)@, findings.deep_view()),
{
    let ghost start = cache@;
    let ghost all = findings.deep_view();
    let mut i: usize = 0;
    assert(all.skip(0) =~= all);
    while i < findings.len()
        invariant
            i <= findings@.len(),
            all == findings.deep_view(),
            start == old(cache)@,
            with_findings(start, all) == with_findings(cache@, all.skip(i as int)),
        decreases findings.len() - i,
    {
        assert(all.skip(i as int)[0] == findings@[i as int].deep_view());
        assert(all.skip(i as int).drop_first() =~= all.skip(i + 1));
        if let Some(error) = store_finding(cache, &findings[i]) {
            return Some(error);
        }
        i += 1;
    }
    None
}

/// Splits accounts into those with a profile and those without.
pub fn split_by_profile(records: Vec<UserDirectoryRecord>) -> (split: (
    Vec<UserDirectoryRecord>,
    Vec<UserDirectoryRecord>,
))
    ensures
        split.0.deep_view() == records.deep_view().filter(|r: EntryContent| r.profile is Some),
        split.1.deep_view() == records.deep_view().filter(|r: EntryContent| r.profile is None),
{
    let ghost items = records@;
    let ghost all = records.deep_view();
    let ghost with = |r: EntryContent| r.profile is Some;
    let ghost without = |r: EntryContent| r.profile is None;
    let mut source = records;
    let mut resolved: Vec<UserDirectoryRecord> = Vec::new();
    let mut pending: Vec<UserDirectoryRecord> = Vec::new();
    let ghost mut done: int = 0;
    proof {
        reveal(Seq::filter);
        assert(all.take(0).filter(with) =~= Seq::<EntryContent>::empty());
        assert(all.take(0).filter(without) =~= Seq::<EntryContent>::empty());
        assert(resolved.deep_view() =~= Seq::<EntryContent>::empty());
        assert(pending.deep_view() =~= Seq::<EntryContent>::empty());
        assert(items.skip(0) =~= items);
    }
    while source.len() > 0
        invariant
            0 <= done <= items.len(),
            done + source@.len() == items.len(),
            source@ == items.skip(done),
            all.len() == items.len(),
            forall|j: int| 0 <= j < items.len() ==> all[j] == (#[trigger] items[j]).deep_view(),
            with == (|r: EntryContent| r.profile is Some),
            without == (|r: EntryContent| r.profile is None),
            resolved.deep_view() == all.take(done).filter(with),
            pending.deep_view() == all.take(done).filter(without),
        decreases source.len(),
    {
        let record = source.remove(0);
        assert(record == items[done]);
        assert(source@ =~= items.skip(done + 1));
        assert(all.take(done + 1).drop_last() =~= all.take(done));
        assert(all.take(done + 1).last() == record.deep_view());
        let ghost added = record.deep_view();
        let ghost resolved_before = resolved.deep_view();
        let ghost pending_before = pending.deep_view();
        if record.profile.is_some() {
            resolved.push(record);
            assert(resolved.deep_view() =~= resolved_before.push(added));
        } else {
            pending.push(record);
            assert(pending.deep_view() =~= pending_before.push(added));
        }
        proof {
            reveal(Seq::filter);
            done = done + 1;
        }
    }
    assert(all.take(done) =~= all);
    (resolved, pending)
}

/// Counts the accounts without a profile.
pub fn count_unresolved(records: &Vec<UserDirectoryRecord>) -> (count: usize)
    ensures
        count == records.deep_view().filter(|r: EntryContent| r.profile is None).len(),
        count <= records@.len(),
{
    let ghost all = records.deep_view();
    let ghost without = |r: EntryContent| r.profile is None;
    let mut count: usize = 0;
    let mut i: usize = 0;
    proof {
        reveal(Seq::filter);
        assert(all.take(0).filter(without) =~= Seq::<EntryContent>::empty());
    }
    while i < records.len()
        invariant
            i <= records@.len(),
            count <= i,
            all == records.deep_view(),
            without == (|r: EntryContent| r.profile is None),
            count == all.take(i as int).filter(without).len(),
        decreases records.len() - i,
    {
        assert(all.take(i + 1).drop_last() =~= all.take(i as int));
        assert(all.take(i + 1).last() == records@[i as int].deep_view());
        if records[i].profile.is_none() {
            count += 1;
        }
        proof {
            reveal(Seq::filter);
        }
        i += 1;
    }
    assert(all.take(all.len() as int) =~= all);
    count
}

fn find_profile(profiles: &Vec<(String, UserProfileMetadata)>, id: &String) -> (profile: Option<
    UserProfileMetadata,
>)
    ensures
        profile.deep_view() == last_profile(profiles.deep_view(), id@),
{
    let ghost all = profiles.deep_view();
    let mut i: usize = profiles.len();
    assert(all.take(all.len() as int) =~= all);
    while i > 0
        invariant
            i <= profiles@.len(),
            all == profiles.deep_view(),
            last_profile(all, id@) == last_profile(all.take(i as int), id@),
        decreases i,
    {
        assert(all.take(i as int).last() == profiles@[i - 1].deep_view());
        assert(all.take(i as int).drop_last() =~= all.take(i - 1));
        i -= 1;
        if profiles[i].0.same(id) {
            return Some(profiles[i].1.duplicate());
        }
    }
    None
}

fn find_carried(records: &Vec<UserDirectoryRecord>, id: &String) -> (profile: Option<
    UserProfileMetadata,
>)
    ensures
        profile.deep_view() == carried_profile(records.deep_view(), id@),
{
    let ghost all = records.deep_view();
    let mut i: usize = records.len();
    assert(all.take(all.len() as int) =~= all);
    while i > 0
        invariant
            i <= records@.len(),
            all == records.deep_view(),
            carried_profile(all, id@) == carried_profile(all.take(i as int), id@),
        decreases i,
    {
        assert(all.take(i as int).last() == records@[i - 1].deep_view());
        assert(all.take(i as int).drop_last() =~= all.take(i - 1));
        i -= 1;
        if records[i].account_id_hex.same(id) && records[i].profile.is_some() {
            return copy_optional(&records[i].profile);
        }
    }
    None
}

/// Folds fetched profiles into the accounts that wait for them, so that each account
/// stays one result.
pub fn replace_resolved_profiles(
    pending: &mut Vec<UserDirectoryRecord>,
    outboxed: &Vec<UserDirectoryRecord>,
)
    ensures
        final(pending).deep_view() == all_refilled(old(pending).deep_view(), outboxed.deep_view()),
{
    let ghost start = pending.deep_view();
    let ghost others = outboxed.deep_view();
    let mut taken: Vec<String> = Vec::new();
    let mut i: usize = 0;
    assert(taken.deep_view() =~= ids_of(start).take(0));
    while i < pending.len()
        invariant
            i <= pending@.len(),
            pending@.len() == start.len(),
            others == outboxed.deep_view(),
            taken.deep_view() == ids_of(start).take(i as int),
            forall|j: int|
                0 <= j < i ==> (#[trigger] pending@[j]).deep_view() == refilled(start, j, others),
            forall|j: int|
                i <= j < start.len() ==> (#[trigger] pending@[j]).deep_view() == start[j],
        decreases pending.len() - i,
    {
        let ghost held = pending@;
        let ghost before = taken.deep_view();
        let mut record = pending.remove(i);
        assert(record == held[i as int]);
        let id = record.account_id_hex.clone();
        if !list_contains(&taken, &id) {
            if let Some(profile) = find_carried(outboxed, &id) {
                record.profile = Some(profile);
            }
        }
        assert(record.deep_view() == refilled(start, i as int, others));
        let ghost named = id@;
        taken.push(id);
        assert(taken.deep_view() =~= before.push(named));
        assert(ids_of(start)[i as int] == named);
        assert(taken.deep_view() =~= ids_of(start).take(i + 1));
        pending.insert(i, record);
        assert(pending@ =~= held.update(i as int, record));
        i += 1;
    }
    assert(pending.deep_view() =~= all_refilled(start, others));
}

/// Picks the latest contact list of each account of a batch. An account that no list
/// came back for is left out: that is not to say that it follows nobody.
pub fn latest_follow_lists(
    batch: &Vec<String>,
    records: &Vec<RelayEventRecord>,
    freshness: DirectoryFreshness,
) -> (lists: Vec<(String, Vec<String>)>)
    ensures
        lists.deep_view() == fetched_lists(batch.deep_view(), records.deep_view(), freshness),
{
    let ghost all = batch.deep_view();
    let mut taken: Vec<String> = Vec::new();
    let mut lists: Vec<(String, Vec<String>)> = Vec::new();
    let mut i: usize = 0;
    assert(all.take(0) =~= Seq::<Seq<char>>::empty());
    assert(taken.deep_view() =~= all.take(0));
    assert(lists.deep_view() =~= Seq::<(Seq<char>, Seq<Seq<char>>)>::empty());
    while i < batch.len()
        invariant
            i <= batch@.len(),
            all == batch.deep_view(),
            taken.deep_view() == all.take(i as int),
            lists.deep_view() == fetched_lists(
                all.take(i as int),
                records.deep_view(),
                freshness,
            ),
        decreases batch.len() - i,
    {
        assert(all.take(i + 1).drop_last() =~= all.take(i as int));
        assert(all.take(i + 1).last() == batch@[i as int]@);
        let ghost before = lists.deep_view();
        if !list_contains(&taken, &batch[i]) {
            if let Some(list) = latest_follow_list_from_records(&batch[i], records, freshness) {
                let ghost added = (batch@[i as int]@, list.follows.deep_view());
                lists.push((batch[i].clone(), list.follows));
                assert(lists.deep_view() =~= before.push(added));
            }
        }
        taken.push(batch[i].clone());
        assert(taken.deep_view() =~= all.take(i + 1));
        i += 1;
    }
    assert(all.take(all.len() as int) =~= all);
    lists
}

impl MarmotApp {
    fn search_graph_profile(&self, account_id_hex: &String, now: i64) -> (result: Result<
        Option<UserDirectoryRecord>,
        AppError,
    >)
        ensures
            outcome(result) == graph_profile(self@.accounts, account_id_hex@, now),
    {
        let ghost all = self.accounts.deep_view();
        let mut i: usize = 0;
        assert(all.skip(0) =~= all);
        while i < self.accounts.len()
            invariant
                i <= self.accounts@.len(),
                all == self.accounts.deep_view(),
                graph_profile(all, account_id_hex@, now) == graph_profile(
                    all.skip(i as int),
                    account_id_hex@,
                    now,
                ),
            decreases self.accounts.len() - i,
        {
            assert(all.skip(i as int)[0] == self.accounts@[i as int].deep_view());
            assert(all.skip(i as int).drop_first() =~= all.skip(i + 1));
            if self.accounts[i].is_active_signing() {
                match self.accounts[i].cache.search_graph_record(account_id_hex.as_str(), now) {
                    Err(error) => return Err(error),
                    Ok(Some(entry)) => {
                        if entry.profile.is_some() {
                            return Ok(Some(entry));
                        }
                    },
                    Ok(None) => {},
                }
            }
            i += 1;
        }
        Ok(None)
    }

    fn local_search_record(&self, account_id_hex: &String, now: i64) -> (result: Result<
        Option<UserDirectoryRecord>,
        AppError,
    >)
        ensures
            outcome(result) == local_record(self@, account_id_hex@, now),
    {
        match self.directory_entry_with_gate(account_id_hex, Gate::Inspect) {
            Err(error) => return Err(error),
            Ok(Some(entry)) => {
                if entry.profile.is_some() {
                    return Ok(Some(entry));
                }
            },
            Ok(None) => {},
        }
        self.search_graph_profile(account_id_hex, now)
    }

    /// Splits a layer into the accounts that this device can match and those whose
    /// profile needs to be fetched. A known account without a profile needs one.
    pub fn partition_locally_known(&self, frontier: &Vec<String>, now: i64) -> (result: Result<
        (Vec<UserDirectoryRecord>, Vec<String>),
        AppError,
    >)
        ensures
            outcome(result) == locally_known(
                self@,
                frontier.deep_view(),
                now,
                Seq::empty(),
                Seq::empty(),
            ),
    {
        let ghost all = frontier.deep_view();
        let ghost app = self@;
        let mut known: Vec<UserDirectoryRecord> = Vec::new();
        let mut missing: Vec<String> = Vec::new();
        let mut i: usize = 0;
        assert(all.skip(0) =~= all);
        assert(known.deep_view() =~= Seq::<EntryContent>::empty());
        assert(missing.deep_view() =~= Seq::<Seq<char>>::empty());
        while i < frontier.len()
            invariant
                i <= frontier@.len(),
                all == frontier.deep_view(),
                app == self@,
                locally_known(app, all, now, Seq::empty(), Seq::empty()) == locally_known(
                    app,
                    all.skip(i as int),
                    now,
                    known.deep_view(),
                    missing.deep_view(),
                ),
            decreases frontier.len() - i,
        {
            assert(all.skip(i as int)[0] == frontier@[i as int]@);
            assert(all.skip(i as int).drop_first() =~= all.skip(i + 1));
            let ghost known_before = known.deep_view();
            let ghost missing_before = missing.deep_view();
            match self.local_search_record(&frontier[i], now) {
                Err(error) => return Err(error),
                Ok(Some(entry)) => {
                    let ghost added = entry.deep_view();
                    known.push(entry);
                    assert(known.deep_view() =~= known_before.push(added));
                },
                Ok(None) => {
                    missing.push(frontier[i].clone());
                    assert(missing.deep_view() =~= missing_before.push(frontier@[i as int]@));
                },
            }
            i += 1;
        }
        Ok((known, missing))
    }

    fn cached_follows_of(&self, account_id_hex: &String) -> (result: Result<
        Option<Vec<String>>,
        AppError,
    >)
        ensures
            outcome(result) == cached_follows(self@.accounts, account_id_hex@),
    {
        let ghost all = self.accounts.deep_view();
        let mut i: usize = 0;
        assert(all.skip(0) =~= all);
        while i < self.accounts.len()
            invariant
                i <= self.accounts@.len(),
                all == self.accounts.deep_view(),
                cached_follows(all, account_id_hex@) == cached_follows(
                    all.skip(i as int),
                    account_id_hex@,
                ),
            decreases self.accounts.len() - i,
        {
            assert(all.skip(i as int)[0] == self.accounts@[i as int].deep_view());
            assert(all.skip(i as int).drop_first() =~= all.skip(i + 1));
            if self.accounts[i].is_active_signing() {
                match self.accounts[i].cache.search_graph_follows(account_id_hex.as_str()) {
                    Err(error) => return Err(error),
                    Ok(Some(follows)) => return Ok(Some(follows)),
                    Ok(None) => {},
                }
            }
            i += 1;
        }
        Ok(None)
    }

    /// Splits a layer into the contact lists that this device knows and the accounts
    /// whose list was never seen.
    pub fn partition_cached_follows(&self, frontier: &Vec<String>) -> (result: Result<
        (Vec<Vec<String>>, Vec<String>),
        AppError,
    >)
        ensures
            outcome(result) == follows_known(
                self@.accounts,
                frontier.deep_view(),
                Seq::empty(),
                Seq::empty(),
            ),
    {
        let ghost all = frontier.deep_view();
        let ghost accounts = self@.accounts;
        let mut cached: Vec<Vec<String>> = Vec::new();
        let mut unknown: Vec<String> = Vec::new();
        let mut i: usize = 0;
        assert(all.skip(0) =~= all);
        assert(cached.deep_view() =~= Seq::<Seq<Seq<char>>>::empty());
        assert(unknown.deep_view() =~= Seq::<Seq<char>>::empty());
        while i < frontier.len()
            invariant
                i <= frontier@.len(),
                all == frontier.deep_view(),
                accounts == self@.accounts,
                follows_known(accounts, all, Seq::empty(), Seq::empty()) == follows_known(
                    accounts,
                    all.skip(i as int),
                    cached.deep_view(),
                    unknown.deep_view(),
                ),
            decreases frontier.len() - i,
        {
            assert(all.skip(i as int)[0] == frontier@[i as int]@);
            assert(all.skip(i as int).drop_first() =~= all.skip(i + 1));
            let ghost cached_before = cached.deep_view();
            let ghost unknown_before = unknown.deep_view();
            match self.cached_follows_of(&frontier[i]) {
                Err(error) => return Err(error),
                Ok(Some(follows)) => {
                    let ghost added = follows.deep_view();
                    cached.push(follows);
                    assert(cached.deep_view() =~= cached_before.push(added));
                },
                Ok(None) => {
                    unknown.push(frontier[i].clone());
                    assert(unknown.deep_view() =~= unknown_before.push(frontier@[i as int]@));
                },
            }
            i += 1;
        }
        Ok((cached, unknown))
    }

    /// The accounts of a batch, each with the profile that was fetched of it. One
    /// without a profile stays: its identity may still match.
    pub fn profile_records(&self, batch: &Vec<String>, profiles: &Vec<(String, UserProfileMetadata)>)
        -> (records: Vec<UserDirectoryRecord>)
        ensures
            records.deep_view() == profile_entries(
                self@,
                batch.deep_view(),
                profiles.deep_view(),
            ),
    {
        let ghost all = batch.deep_view();
        let ghost found = profiles.deep_view();
        let ghost app = self@;
        let mut taken: Vec<String> = Vec::new();
        let mut records: Vec<UserDirectoryRecord> = Vec::new();
        let mut i: usize = 0;
        assert(taken.deep_view() =~= all.take(0));
        while i < batch.len()
            invariant
                i <= batch@.len(),
                all == batch.deep_view(),
                found == profiles.deep_view(),
                app == self@,
                taken.deep_view() == all.take(i as int),
                records@.len() == i,
                forall|j: int|
                    0 <= j < i ==> (#[trigger] records@[j]).deep_view() == (EntryContent {
                        profile: given_profile(all, j, found),
                        ..empty_entry(app, all[j])
                    }),
            decreases batch.len() - i,
        {
            let mut record = self.empty_directory_record(&batch[i]);
            if !list_contains(&taken, &batch[i]) {
                record.profile = find_profile(profiles, &batch[i]);
            }
            assert(all[i as int] == batch@[i as int]@);
            records.push(record);
            let ghost before = taken.deep_view();
            taken.push(batch[i].clone());
            assert(taken.deep_view() =~= before.push(all[i as int]));
            assert(taken.deep_view() =~= all.take(i + 1));
            i += 1;
        }
        assert(records.deep_view() =~= profile_entries(app, all, found));
        records
    }

    /// One account for each that a profile was fetched of.
    pub fn records_of_profiles(&self, profiles: &Vec<(String, UserProfileMetadata)>) -> (records: Vec<
        UserDirectoryRecord,
    >)
        ensures
            records.deep_view() == entries_of_profiles(self@, profiles.deep_view()),
    {
        let ghost all = profiles.deep_view();
        let ghost app = self@;
        let mut later: Vec<String> = Vec::new();
        let mut records: Vec<UserDirectoryRecord> = Vec::new();
        let mut i: usize = profiles.len();
        assert(all.skip(all.len() as int) =~= Seq::<(Seq<char>, ProfileContent)>::empty());
        assert(records.deep_view() =~= Seq::<EntryContent>::empty());
        assert(later.deep_view() =~= Seq::<Seq<char>>::empty());
        while i > 0
            invariant
                i <= profiles@.len(),
                all == profiles.deep_view(),
                app == self@,
                records.deep_view() == entries_of_profiles(app, all.skip(i as int)),
                forall|id: Seq<char>|
                    #[trigger] later.deep_view().contains(id) <==> has_profile(
                        all.skip(i as int),
                        id,
                    ),
            decreases i,
        {
            let ghost rest = all.skip(i as int);
            i -= 1;
            let ghost now_all = all.skip(i as int);
            assert(now_all.drop_first() =~= rest);
            assert(now_all[0] == profiles@[i as int].deep_view());
            let ghost before = records.deep_view();
            let ghost later_before = later.deep_view();
            if !list_contains(&later, &profiles[i].0) {
                let mut record = self.empty_directory_record(&profiles[i].0);
                record.profile = Some(profiles[i].1.duplicate());
                let ghost added = record.deep_view();
                records.insert(0, record);
                assert(records.deep_view() =~= seq![added] + before);
            }
            later.push(profiles[i].0.clone());
            proof {
                assert(later.deep_view() =~= later_before.push(profiles@[i as int].0@));
                assert forall|id: Seq<char>|
                    #[trigger] later.deep_view().contains(id) <==> has_profile(now_all, id) by {
                    crate::order::lemma_push_contains(
                        later_before,
                        profiles@[i as int].0@,
                        id,
                    );
                    lemma_first_profile(now_all, id);
                }
            }
        }
        assert(all.skip(0) =~= all);
        records
    }

    /// The ranked accounts that a profile was fetched of, in the order given.
    pub fn hydrate_open_ranking_profiles(
        &self,
        ranked_pubkeys: &Vec<RankedPubkey>,
        profiles: &Vec<(String, UserProfileMetadata)>,
    ) -> (records: Vec<RankedDirectoryRecord>)
        ensures
            records.deep_view() == hydrated_ranked(
                self@,
                ranked_pubkeys.deep_view(),
                profiles.deep_view(),
            ),
            records@.len() <= ranked_pubkeys@.len(),
    {
        let ghost all = ranked_pubkeys.deep_view();
        let ghost found = profiles.deep_view();
        let ghost app = self@;
        let mut taken: Vec<String> = Vec::new();
        let mut records: Vec<RankedDirectoryRecord> = Vec::new();
        let mut i: usize = 0;
        assert(all.take(0) =~= Seq::<(Seq<char>, ProviderRank)>::empty());
        assert(taken.deep_view() =~= names(all.take(0)));
        assert(records.deep_view() =~= Seq::<(EntryContent, ProviderRank)>::empty());
        while i < ranked_pubkeys.len()
            invariant
                i <= ranked_pubkeys@.len(),
                records@.len() <= i,
                all == ranked_pubkeys.deep_view(),
                found == profiles.deep_view(),
                app == self@,
                taken.deep_view() == names(all.take(i as int)),
                records.deep_view() == hydrated_ranked(app, all.take(i as int), found),
            decreases ranked_pubkeys.len() - i,
        {
            assert(all.take(i + 1).drop_last() =~= all.take(i as int));
            assert(all.take(i + 1).last() == ranked_pubkeys@[i as int].deep_view());
            let ghost before = records.deep_view();
            let id = &ranked_pubkeys[i].account_id_hex;
            if !list_contains(&taken, id) {
                if let Some(profile) = find_profile(profiles, id) {
                    let mut record = self.empty_directory_record(id);
                    record.profile = Some(profile);
                    let ranked = RankedDirectoryRecord { record, rank: ranked_pubkeys[i].rank };
                    let ghost added = ranked.deep_view();
                    records.push(ranked);
                    assert(records.deep_view() =~= before.push(added));
                }
            }
            let ghost named = taken.deep_view();
            taken.push(ranked_pubkeys[i].account_id_hex.clone());
            assert(taken.deep_view() =~= named.push(all[i as int].0));
            assert(taken.deep_view() =~= names(all.take(i + 1)));
            i += 1;
        }
        assert(all.take(all.len() as int) =~= all);
        records
    }

    fn keep_findings(&mut self, findings: &Vec<SearchFinding>) -> (result: Result<(), AppError>)
        ensures
            kept(old(self)@, findings.deep_view(), final(self)@, result),
    {
        let ghost start = self@;
        let ghost given = self.accounts.deep_view();
        let ghost found = findings.deep_view();
        let mut i: usize = 0;
        assert(given.skip(0) =~= given);
        assert(given.take(0) =~= Seq::<AccountContent>::empty());
        assert(Seq::<AccountContent>::empty() + findings_spread(given, found).0
            =~= findings_spread(given, found).0);
        while i < self.accounts.len()
            invariant
                i <= self.accounts@.len(),
                self.accounts@.len() == given.len(),
                found == findings.deep_view(),
                start == old(self)@,
                given == start.accounts,
                self@ == (AppContent { accounts: self.accounts.deep_view(), ..start }),
                self.accounts.deep_view().skip(i as int) == given.skip(i as int),
                findings_spread(given, found).0 == self.accounts.deep_view().take(i as int)
                    + findings_spread(given.skip(i as int), found).0,
                findings_spread(given, found).1 == findings_spread(
                    given.skip(i as int),
                    found,
                ).1,
            decreases self.accounts.len() - i,
        {
            let ghost rest = given.skip(i as int);
            let ghost done = self.accounts.deep_view().take(i as int);
            assert(rest[0] == self.accounts@[i as int].deep_view()) by {
                assert(self.accounts.deep_view().skip(i as int)[0]
                    == self.accounts@[i as int].deep_view());
            }
            assert(rest.drop_first() =~= given.skip(i + 1));
            assert(self.accounts.deep_view().skip(i + 1) =~= given.skip(i + 1)) by {
                assert(self.accounts.deep_view().skip(i as int).drop_first()
                    =~= self.accounts.deep_view().skip(i + 1));
            }
            if self.accounts[i].is_active_signing() {
                let ghost held = self.accounts@;
                let ghost all_before = self.accounts.deep_view();
                let mut account = self.accounts.remove(i);
                let ghost before = account.deep_view();
                let fault = store_findings(&mut account.cache, findings);
                assert(account.deep_view() == (AccountContent {
                    cache: with_findings(before.cache, found).0,
                    ..before
                }));
                let ghost stored = account.deep_view();
                self.accounts.insert(i, account);
                assert(self.accounts@ =~= held.update(i as int, account));
                assert(self.accounts.deep_view() =~= all_before.update(i as int, stored));
                assert(self.accounts.deep_view().skip(i + 1) =~= given.skip(i + 1));
                assert(self.accounts.deep_view().take(i + 1) =~= done.push(stored));
                if let Some(error) = fault {
                    assert(findings_spread(given, found).0 =~= self.accounts.deep_view());
                    return Err(error);
                }
                assert(done.push(stored) + findings_spread(given.skip(i + 1), found).0 =~= done + (
                seq![stored] + findings_spread(given.skip(i + 1), found).0));
            } else {
                assert(self.accounts.deep_view().take(i + 1) =~= done.push(rest[0]));
                assert(done.push(rest[0]) + findings_spread(given.skip(i + 1), found).0 =~= done + (
                seq![rest[0]] + findings_spread(given.skip(i + 1), found).0));
            }
            i += 1;
        }
        assert(given.skip(i as int) =~= Seq::<AccountContent>::empty());
        assert(self.accounts.deep_view().take(i as int) + Seq::<AccountContent>::empty()
            =~= self.accounts.deep_view());
        Ok(())
    }

    /// Keeps the profiles that a search resolved, so that the next search for the
    /// same accounts finds them here. Nobody becomes a known user by this, and an
    /// account without a profile is not kept.
    pub fn cache_resolved_profiles(&mut self, records: &Vec<UserDirectoryRecord>, now: i64)
        -> (result: Result<(), AppError>)
        requires
            0 <= now,
            now + SEARCH_GRAPH_PROFILE_TTL_SECONDS <= i64::MAX,
        ensures
            profile_findings(records.deep_view(), now).len() > 0 ==> kept(
                old(self)@,
                profile_findings(records.deep_view(), now),
                final(self)@,
                result,
            ),
            profile_findings(records.deep_view(), now).len() == 0 ==> result is Ok && final(self)@
                == old(self)@,
    {
        let ghost all = records.deep_view();
        let mut findings: Vec<SearchFinding> = Vec::new();
        let mut i: usize = 0;
        assert(all.take(0) =~= Seq::<EntryContent>::empty());
        assert(findings.deep_view() =~= Seq::<FindingContent>::empty());
        while i < records.len()
            invariant
                i <= records@.len(),
                all == records.deep_view(),
                0 <= now,
                now + SEARCH_GRAPH_PROFILE_TTL_SECONDS <= i64::MAX,
                findings.deep_view() == profile_findings(all.take(i as int), now),
            decreases records.len() - i,
        {
            assert(all.take(i + 1).drop_last() =~= all.take(i as int));
            assert(all.take(i + 1).last() == records@[i as int].deep_view());
            let ghost before = findings.deep_view();
            if let Some(profile) = &records[i].profile {
                let finding = SearchFinding::Profile(
                    DirectorySearchGraphRecord {
                        account_id_hex: records[i].account_id_hex.clone(),
                        npub: records[i].npub.clone(),
                        profile: Some(profile.duplicate()),
                        follows: None,
                        metadata_updated_at: Some(profile.created_at),
                        metadata_expires_at: Some((now + SEARCH_GRAPH_PROFILE_TTL_SECONDS) as u64),
                    },
                );
                let ghost added = finding.deep_view();
                findings.push(finding);
                assert(findings.deep_view() =~= before.push(added));
            }
            i += 1;
        }
        assert(all.take(all.len() as int) =~= all);
        if findings.len() == 0 {
            return Ok(());
        }
        self.keep_findings(&findings)
    }

    /// Keeps the contact lists that a search fetched, so that the next search walks
    /// on from here. Nobody becomes a known user by this.
    pub fn cache_resolved_follows(&mut self, fetched: &Vec<(String, Vec<String>)>) -> (result: Result<
        (),
        AppError,
    >)
        ensures
            kept(old(self)@, follow_findings(fetched.deep_view()), final(self)@, result),
    {
        let ghost all = fetched.deep_view();
        let mut findings: Vec<SearchFinding> = Vec::new();
        let mut i: usize = 0;
        while i < fetched.len()
            invariant
                i <= fetched@.len(),
                all == fetched.deep_view(),
                findings@.len() == i,
                forall|j: int|
                    0 <= j < i ==> (#[trigger] findings@[j]).deep_view() == (
                    FindingContent::Follows { account_id_hex: all[j].0, follows: all[j].1 }),
            decreases fetched.len() - i,
        {
            assert(all[i as int] == fetched@[i as int].deep_view());
            findings.push(
                SearchFinding::Follows {
                    account_id_hex: fetched[i].0.clone(),
                    follows: copy_list(&fetched[i].1),
                },
            );
            i += 1;
        }
        assert(findings.deep_view() =~= follow_findings(all));
        self.keep_findings(&findings)
    }
}

proof fn lemma_first_profile(profiles: Seq<(Seq<char>, ProfileContent)>, id: Seq<char>)
    requires
        profiles.len() > 0,
    ensures
        has_profile(profiles, id) <==> profiles[0].0 == id || has_profile(
            profiles.drop_first(),
            id,
        ),
    decreases profiles.len(),
{
    if profiles.len() == 1 {
        assert(profiles.drop_last() =~= Seq::<(Seq<char>, ProfileContent)>::empty());
        assert(profiles.drop_first() =~= Seq::<(Seq<char>, ProfileContent)>::empty());
    } else {
        lemma_first_profile(profiles.drop_last(), id);
        assert(profiles.drop_last().drop_first() =~= profiles.drop_first().drop_last());
        assert(profiles.drop_first().last() == profiles.last());
    }
}

/// The accounts are the same apart from what their search graphs hold.
pub open spec fn same_but_graphs(before: Seq<AccountContent>, after: Seq<AccountContent>) -> bool {
    &&& before.len() == after.len()
    &&& forall|i: int|
        0 <= i < before.len() ==> (#[trigger] after[i]) == (AccountContent {
            cache: CacheContent { graph: after[i].cache.graph, ..before[i].cache },
            ..before[i]
        })
}

proof fn lemma_findings_keep_users(cache: CacheContent, findings: Seq<FindingContent>)
    ensures
        with_findings(cache, findings).0 == (CacheContent {
            graph: with_findings(cache, findings).0.graph,
            ..cache
        }),
    decreases findings.len(),
{
    if findings.len() > 0 {
        lemma_findings_keep_users(with_finding(cache, findings[0]).0, findings.drop_first());
    }
}

/// What a search finds makes nobody a known user, whatever it finds and whether or
/// not all of it can be stored: nothing but search graphs changes.
pub proof fn law_findings_promote_nobody(
    accounts: Seq<AccountContent>,
    findings: Seq<FindingContent>,
)
    ensures
        same_but_graphs(accounts, findings_spread(accounts, findings).0),
    decreases accounts.len(),
{
    if accounts.len() > 0 {
        let rest = accounts.drop_first();
        let after = findings_spread(accounts, findings).0;
        law_findings_promote_nobody(rest, findings);
        lemma_findings_keep_users(accounts[0].cache, findings);
        assert forall|i: int| 0 <= i < accounts.len() implies (#[trigger] after[i]) == (
        AccountContent {
            cache: CacheContent { graph: after[i].cache.graph, ..accounts[i].cache },
            ..accounts[i]
        }) by {
            if i > 0 {
                assert(rest[i - 1] == accounts[i]);
                if after[i] != rest[i - 1] {
                    assert(after[i] == findings_spread(rest, findings).0[i - 1]);
                }
            }
        }
    }
}

/// An account stays one result: folding fetched profiles in changes no identity and
/// loses no account.
pub proof fn law_refilling_keeps_accounts(
    pending: Seq<EntryContent>,
    outboxed: Seq<EntryContent>,
)
    ensures
        ids_of(all_refilled(pending, outboxed)) == ids_of(pending),
        forall|i: int|
            0 <= i < pending.len() && pending[i].profile is Some ==> (#[trigger] all_refilled(
                pending,
                outboxed,
            )[i]).profile is Some,
{
    assert(ids_of(all_refilled(pending, outboxed)) =~= ids_of(pending));
}

} // verus!
