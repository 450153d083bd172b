//! Fetching the key packages of a group's members, and putting the results
//! together in the order of the roster.

use crate::collections::{copy_list, Key};
use crate::directory::app_entry::source_relays_of;
use crate::directory::app_fetch::offered_package;
use crate::directory::app_ingest::freshness_at;
use crate::directory::app_state::{AppContent, MarmotApp};
use crate::directory::entry::{EntryContent, UserDirectoryRecord};
use crate::directory::key_packages::{
    decoding, outcome, FetchedContent, KeyPackage, KeyPackageContent, KeyPackageEventRecord,
    KeyPackageMetadata, MetadataContent, PackageRecordContent,
};
use crate::directory::members::{
    accepted, decoded_cached, target_entry, DecodedContent, KeyPackageDecodings,
    MemberKeyPackageResolutionStats, MemberResolutionPurpose, MemberTarget, TargetContent,
};
use crate::directory::members_fetch::{
    chunked, chunks_of, collect_ids, copy_indices, cut_into_chunks, ids_at, indices_below,
    outcome_of, outcomes_of, positions, KEY_PACKAGE_EVENTS_PER_AUTHOR,
    MEMBER_RESOLUTION_AUTHORS_PER_QUERY,
};
use crate::directory::merge::{rank_text_lists, texts_rank};
use crate::directory::records::{DirectoryEventQuery, QueryContent, KIND_MARMOT_KEY_PACKAGE};
use crate::error::{AppError, ErrorContent, MissingRelayListKind};
use crate::order::{ascending_set, sort_dedup};
use crate::text::join;
use vstd::prelude::*;

verus! {

/// Outcomes, some of them still open.
pub type Outcomes = Vec<Option<Result<KeyPackage, AppError>>>;

/// The members whose outcome is still open.
pub open spec fn still_open(
    unresolved: Seq<int>,
    outcomes: Seq<Option<Result<KeyPackageContent, ErrorContent>>>,
) -> Seq<int> {
    unresolved.filter(|i: int| outcomes[i] is None)
}

/// The members whose outcome is still open.
pub fn open_members(unresolved: &Vec<usize>, outcomes: &Outcomes) -> (indices: Vec<usize>)
    requires
        indices_below(unresolved@, outcomes@.len()),
    ensures
        positions(indices@) == still_open(positions(unresolved@), outcomes_of(outcomes@)),
        indices_below(indices@, outcomes@.len()),
{
    let ghost all = positions(unresolved@);
    let ghost o = outcomes_of(outcomes@);
    let ghost keep = |i: int| o[i] is None;
    let mut indices: Vec<usize> = Vec::new();
    let mut k: usize = 0;
    proof {
        reveal(Seq::filter);
        assert(all.take(0).filter(keep) =~= Seq::<int>::empty());
        assert(positions(indices@) =~= Seq::<int>::empty());
    }
    while k < unresolved.len()
        invariant
            k <= unresolved@.len(),
            indices_below(unresolved@, outcomes@.len()),
            indices_below(indices@, outcomes@.len()),
            all == positions(unresolved@),
            o == outcomes_of(outcomes@),
            keep == (|i: int| o[i] is None),
            positions(indices@) == all.take(k as int).filter(keep),
        decreases unresolved.len() - k,
    {
        let index = unresolved[k];
        assert(o[index as int] == outcome_of(outcomes@[index as int]));
        proof {
            assert(all.take(k + 1).drop_last() =~= all.take(k as int));
            assert(all.take(k + 1).last() == index as int);
            reveal(Seq::filter);
        }
        if outcomes[index].is_none() {
            let ghost before = positions(indices@);
            indices.push(index);
            assert(positions(indices@) =~= before.push(index as int));
        }
        k += 1;
    }
    assert(all.take(all.len() as int) =~= all);
    assert(positions(indices@) == still_open(all, o));
    indices
}

/// Members that are fetched from the same relays.
#[derive(Debug)]
pub struct RelayGroup {
    pub endpoints: Vec<String>,
    pub indices: Vec<usize>,
}

/// The content of a [`RelayGroup`].
#[verifier::ext_equal]
pub struct GroupContent {
    pub endpoints: Seq<Seq<char>>,
    pub indices: Seq<int>,
}

impl DeepView for RelayGroup {
    type V = GroupContent;

    open spec fn deep_view(&self) -> GroupContent {
        GroupContent {
            endpoints: self.endpoints.deep_view(),
            indices: positions(self.indices@),
        }
    }
}

/// Where a member is fetched from: its usable relays, or else the directory's.
pub open spec fn fetch_relays(app: AppContent, usable: Seq<Seq<char>>) -> Seq<Seq<char>> {
    if usable.len() > 0 {
        usable
    } else {
        source_relays_of(app, Seq::empty())
    }
}

/// The first group whose relays do not come before the given ones.
pub open spec fn group_position(
    groups: Seq<GroupContent>,
    endpoints: Seq<Seq<char>>,
    from: int,
) -> int
    decreases groups.len() - from,
{
    if from >= groups.len() {
        groups.len() as int
    } else if texts_rank(groups[from].endpoints, endpoints) >= 0 {
        from
    } else {
        group_position(groups, endpoints, from + 1)
    }
}

/// The groups, ordered by their relays, after a member entered.
pub open spec fn grouped(
    groups: Seq<GroupContent>,
    endpoints: Seq<Seq<char>>,
    index: int,
) -> Seq<GroupContent> {
    let p = group_position(groups, endpoints, 0);
    if 0 <= p < groups.len() && groups[p].endpoints == endpoints {
        groups.update(
            p,
            GroupContent { endpoints, indices: groups[p].indices.push(index) },
        )
    } else {
        groups.insert(p, GroupContent { endpoints, indices: seq![index] })
    }
}

/// The members that can be fetched, by relays, and the outcomes of those that
/// cannot because no relay is known for them.
pub open spec fn grouped_all(
    app: AppContent,
    usable: Seq<Seq<Seq<char>>>,
    unresolved: Seq<int>,
    outcomes: Seq<Option<Result<KeyPackageContent, ErrorContent>>>,
) -> (Seq<GroupContent>, Seq<Option<Result<KeyPackageContent, ErrorContent>>>)
    decreases unresolved.len(),
{
    if unresolved.len() == 0 {
        (Seq::empty(), outcomes)
    } else {
        let (groups, settled) = grouped_all(app, usable, unresolved.drop_last(), outcomes);
        let i = unresolved.last();
        let endpoints = ascending_set(fetch_relays(app, usable[i]));
        if endpoints.len() == 0 {
            (
                groups,
                settled.update(
                    i,
                    Some(
                        Err(
                            ErrorContent::MissingRelayLists(
                                seq![MissingRelayListKind::Nip65],
                            ),
                        ),
                    ),
                ),
            )
        } else {
            (grouped(groups, endpoints, i), settled)
        }
    }
}

pub proof fn lemma_group_position(groups: Seq<GroupContent>, endpoints: Seq<Seq<char>>, from: int)
    requires
        0 <= from <= groups.len(),
    ensures
        from <= group_position(groups, endpoints, from) <= groups.len(),
    decreases groups.len() - from,
{
    if from < groups.len() && texts_rank(groups[from].endpoints, endpoints) < 0 {
        lemma_group_position(groups, endpoints, from + 1);
    }
}

fn enter_group(
    groups: &mut Vec<RelayGroup>,
    endpoints: Vec<String>,
    index: usize,
    Ghost(bound): Ghost<nat>,
)
    requires
        index < bound,
        groups_below(old(groups)@, bound),
    ensures
        final(groups).deep_view() == grouped(
            old(groups).deep_view(),
            endpoints.deep_view(),
            index as int,
        ),
        groups_below(final(groups)@, bound),
{
    let ghost start = groups.deep_view();
    let ghost items = groups@;
    let ghost e = endpoints.deep_view();
    let mut p: usize = 0;
    while p < groups.len() && rank_text_lists(&groups[p].endpoints, &endpoints) < 0
        invariant
            p <= groups@.len(),
            groups@ == items,
            start == groups.deep_view(),
            e == endpoints.deep_view(),
            group_position(start, e, 0) == group_position(start, e, p as int),
        decreases groups.len() - p,
    {
        assert(start[p as int] == groups@[p as int].deep_view());
        p += 1;
    }
    if p < groups.len() {
        assert(start[p as int] == groups@[p as int].deep_view());
    }
    if p < groups.len() && crate::directory::records::same_texts(
        &groups[p].endpoints,
        &endpoints,
    ) {
        let mut group = groups.remove(p);
        let ghost before = positions(group.indices@);
        group.indices.push(index);
        assert(positions(group.indices@) =~= before.push(index as int));
        groups.insert(p, group);
        assert(groups.deep_view() =~= start.update(p as int, group.deep_view()));
        assert forall|g: int| 0 <= g < groups@.len() implies indices_below(
            (#[trigger] groups@[g]).indices@,
            bound,
        ) by {
            if g != p {
                assert(groups@[g] == items[g]);
            } else {
                assert(indices_below(items[p as int].indices@, bound));
            }
        }
    } else {
        let mut indices: Vec<usize> = Vec::new();
        indices.push(index);
        assert(positions(indices@) =~= seq![index as int]);
        let group = RelayGroup { endpoints, indices };
        groups.insert(p, group);
        assert(groups.deep_view() =~= start.insert(p as int, group.deep_view()));
        assert forall|g: int| 0 <= g < groups@.len() implies indices_below(
            (#[trigger] groups@[g]).indices@,
            bound,
        ) by {
            if g < p {
                assert(groups@[g] == items[g]);
            } else if g > p {
                assert(groups@[g] == items[g - 1]);
            }
        }
    }
}

pub open spec fn groups_below(groups: Seq<RelayGroup>, bound: nat) -> bool {
    forall|g: int| 0 <= g < groups.len() ==> indices_below((#[trigger] groups[g]).indices@, bound)
}

fn missing_route<T>() -> (result: Result<T, AppError>)
    ensures
        result is Err,
        result->Err_0.deep_view() == ErrorContent::MissingRelayLists(
            seq![MissingRelayListKind::Nip65],
        ),
{
    let mut missing: Vec<MissingRelayListKind> = Vec::new();
    missing.push(MissingRelayListKind::Nip65);
    assert(missing@ =~= seq![MissingRelayListKind::Nip65]);
    Err(AppError::MissingRelayLists(missing))
}

/// A query for the key packages of some members.
#[derive(Debug)]
pub struct KeyPackageRequest {
    pub indices: Vec<usize>,
    pub endpoints: Vec<String>,
    pub query: DirectoryEventQuery,
}

/// The content of a [`KeyPackageRequest`].
#[verifier::ext_equal]
pub struct PackageRequestContent {
    pub indices: Seq<int>,
    pub endpoints: Seq<Seq<char>>,
    pub query: QueryContent,
}

impl DeepView for KeyPackageRequest {
    type V = PackageRequestContent;

    open spec fn deep_view(&self) -> PackageRequestContent {
        PackageRequestContent {
            indices: positions(self.indices@),
            endpoints: self.endpoints.deep_view(),
            query: self.query.deep_view(),
        }
    }
}

/// The query for the key packages of some accounts.
pub open spec fn package_query(authors: Seq<Seq<char>>) -> QueryContent {
    QueryContent {
        kind: KIND_MARMOT_KEY_PACKAGE,
        authors,
        limit: (authors.len() * KEY_PACKAGE_EVENTS_PER_AUTHOR) as usize,
    }
}

fn member_package_query(authors: Vec<String>) -> (query: DirectoryEventQuery)
    requires
        authors@.len() <= MEMBER_RESOLUTION_AUTHORS_PER_QUERY,
    ensures
        query.deep_view() == package_query(authors.deep_view()),
{
    let limit: usize = authors.len() * KEY_PACKAGE_EVENTS_PER_AUTHOR;
    DirectoryEventQuery::new(KIND_MARMOT_KEY_PACKAGE, authors, limit)
}

/// The queries of one group.
pub open spec fn group_requests(targets: Seq<TargetContent>, group: GroupContent) -> Seq<
    PackageRequestContent,
> {
    chunked(group.indices, MEMBER_RESOLUTION_AUTHORS_PER_QUERY as nat).map_values(
        |indices: Seq<int>|
            PackageRequestContent {
                indices,
                endpoints: group.endpoints,
                query: package_query(ids_at(targets, indices)),
            },
    )
}

/// The queries of all groups.
pub open spec fn all_requests(targets: Seq<TargetContent>, groups: Seq<GroupContent>) -> Seq<
    PackageRequestContent,
>
    decreases groups.len(),
{
    if groups.len() == 0 {
        Seq::empty()
    } else {
        all_requests(targets, groups.drop_last()) + group_requests(targets, groups.last())
    }
}

fn push_group_requests(
    requests: &mut Vec<KeyPackageRequest>,
    targets: &Vec<MemberTarget>,
    group: &RelayGroup,
)
    requires
        indices_below(group.indices@, targets@.len()),
        requests_below(old(requests)@, targets@.len()),
    ensures
        final(requests).deep_view() == old(requests).deep_view() + group_requests(
            targets.deep_view(),
            group.deep_view(),
        ),
        requests_below(final(requests)@, targets@.len()),
{
    let ghost start = requests.deep_view();
    let ghost t = targets.deep_view();
    let ghost g = group.deep_view();
    let chunks = cut_into_chunks(&group.indices, Ghost(targets@.len()));
    let ghost cs = chunks_of(chunks@);
    let ghost make = |indices: Seq<int>|
        PackageRequestContent {
            indices,
            endpoints: g.endpoints,
            query: package_query(ids_at(t, indices)),
        };
    let mut c: usize = 0;
    assert(start + cs.take(0).map_values(make) =~= start);
    while c < chunks.len()
        invariant
            c <= chunks@.len(),
            t == targets.deep_view(),
            g == group.deep_view(),
            cs == chunks_of(chunks@),
            make == (|indices: Seq<int>|
                PackageRequestContent {
                    indices,
                    endpoints: g.endpoints,
                    query: package_query(ids_at(t, indices)),
                }),
            forall|k: int|
                0 <= k < chunks@.len() ==> indices_below(
                    (#[trigger] chunks@[k]).indices@,
                    targets@.len(),
                ) && chunks@[k].indices@.len() <= MEMBER_RESOLUTION_AUTHORS_PER_QUERY,
            requests.deep_view() == start + cs.take(c as int).map_values(make),
            requests_below(requests@, targets@.len()),
        decreases chunks.len() - c,
    {
        let part = copy_indices(&chunks[c].indices);
        let authors = collect_ids(targets, &part);
        let ghost before = requests.deep_view();
        let ghost items = requests@;
        let request = KeyPackageRequest {
            query: member_package_query(authors),
            endpoints: copy_list(&group.endpoints),
            indices: part,
        };
        assert(cs[c as int] == positions(chunks@[c as int].indices@));
        assert(request.deep_view() == make(cs[c as int]));
        requests.push(request);
        assert(requests.deep_view() =~= before.push(request.deep_view()));
        assert(cs.take(c + 1).map_values(make) =~= cs.take(c as int).map_values(make).push(
            make(cs[c as int]),
        ));
        assert(before.push(make(cs[c as int])) =~= start + cs.take(c + 1).map_values(make));
        assert forall|r: int| 0 <= r < requests@.len() implies indices_below(
            (#[trigger] requests@[r]).indices@,
            targets@.len(),
        ) by {
            if r < items.len() {
                assert(requests@[r] == items[r]);
            }
        }
        c += 1;
    }
    assert(cs.take(cs.len() as int) =~= cs);
}

pub open spec fn requests_below(requests: Seq<KeyPackageRequest>, bound: nat) -> bool {
    forall|r: int|
        0 <= r < requests.len() ==> indices_below((#[trigger] requests[r]).indices@, bound)
}

/// The records of one author.
pub open spec fn packages_by(records: Seq<PackageRecordContent>, author: Seq<char>) -> Seq<
    PackageRecordContent,
> {
    records.filter(|r: PackageRecordContent| r.record.event.pubkey == author)
}

fn select_packages(records: &Vec<KeyPackageEventRecord>, author: &String) -> (out: Vec<
    KeyPackageEventRecord,
>)
    ensures
        out.deep_view() == packages_by(records.deep_view(), author@),
{
    let ghost all = records.deep_view();
    let ghost keep = |r: PackageRecordContent| r.record.event.pubkey == author@;
    let mut out: Vec<KeyPackageEventRecord> = Vec::new();
    let mut i: usize = 0;
    proof {
        reveal(Seq::filter);
        assert(all.take(0).filter(keep) =~= Seq::<PackageRecordContent>::empty());
        assert(out.deep_view() =~= Seq::<PackageRecordContent>::empty());
    }
    while i < records.len()
        invariant
            i <= records@.len(),
            all == records.deep_view(),
            keep == (|r: PackageRecordContent| r.record.event.pubkey == author@),
            out.deep_view() == all.take(i as int).filter(keep),
        decreases records.len() - i,
    {
        proof {
            assert(all.take(i + 1).drop_last() =~= all.take(i as int));
            assert(all.take(i + 1).last() == records@[i as int].deep_view());
            reveal(Seq::filter);
        }
        if records[i].record.event.pubkey.same(author) {
            let ghost before = out.deep_view();
            out.push(records[i].duplicate());
            assert(out.deep_view() =~= before.push(records@[i as int].deep_view()));
        }
        i += 1;
    }
    assert(all.take(all.len() as int) =~= all);
    assert(out.deep_view() == packages_by(all, author@));
    out
}

/// What decoding the key package of an entry gave.
pub open spec fn entry_decoding(table: Seq<DecodedContent>, entry: Option<EntryContent>) -> Result<
    MetadataContent,
    Seq<char>,
> {
    match entry {
        Some(entry) => match entry.key_package {
            Some(package) => decoded_cached(table, package),
            None => Err("KeyPackage was not decoded"@),
        },
        None => Err("KeyPackage was not decoded"@),
    }
}

fn decoding_of_entry(table: &KeyPackageDecodings, entry: &Option<UserDirectoryRecord>)
    -> (metadata: Result<KeyPackageMetadata, String>)
    ensures
        decoding(metadata) == entry_decoding(table@, entry.deep_view()),
{
    match entry {
        Some(entry) => match &entry.key_package {
            Some(package) => table.metadata_of_cached(package),
            None => Err("KeyPackage was not decoded".to_owned()),
        },
        None => Err("KeyPackage was not decoded".to_owned()),
    }
}

/// Where fetching the key packages of members stands.
#[verifier::ext_equal]
pub struct FetchProgress {
    pub app: AppContent,
    pub outcomes: Seq<Option<Result<KeyPackageContent, ErrorContent>>>,
    pub fallback: Seq<int>,
}

/// Where fetching stands after a member's part of a batch was looked at. A member
/// that the batch did not serve is fetched on its own.
pub open spec fn served(
    progress: FetchProgress,
    target: TargetContent,
    index: int,
    records: Seq<PackageRecordContent>,
    table: Seq<DecodedContent>,
    purpose: MemberResolutionPurpose,
    now: u64,
    now_ms: u64,
) -> FetchProgress {
    let app = progress.app;
    let cached = match target_entry(app, target) {
        Ok(entry) => entry,
        Err(_) => None,
    };
    match offered_package(
        app,
        target.account_id_hex,
        packages_by(records, target.account_id_hex),
        cached,
        entry_decoding(table, cached),
        freshness_at(app, now),
    ) {
        Err(_) => FetchProgress { fallback: progress.fallback.push(index), ..progress },
        Ok(offered) => {
            let (after, package) = accepted(
                app,
                purpose,
                FetchedContent { relay_lists: target.relay_lists, ..offered },
                table,
                now,
                now_ms,
            );
            FetchProgress {
                app: after,
                outcomes: progress.outcomes.update(index, Some(package)),
                ..progress
            }
        },
    }
}

/// Where fetching stands after relays answered a batch.
pub open spec fn batch_served(
    progress: FetchProgress,
    targets: Seq<TargetContent>,
    indices: Seq<int>,
    records: Seq<PackageRecordContent>,
    table: Seq<DecodedContent>,
    purpose: MemberResolutionPurpose,
    now: u64,
    now_ms: u64,
) -> FetchProgress
    decreases indices.len(),
{
    if indices.len() == 0 {
        progress
    } else {
        served(
            batch_served(
                progress,
                targets,
                indices.drop_last(),
                records,
                table,
                purpose,
                now,
                now_ms,
            ),
            targets[indices.last()],
            indices.last(),
            records,
            table,
            purpose,
            now,
            now_ms,
        )
    }
}

/// The outcome of fetching one member on its own.
pub open spec fn alone(
    app: AppContent,
    target: TargetContent,
    answer: Result<Seq<PackageRecordContent>, Seq<char>>,
    table: Seq<DecodedContent>,
    purpose: MemberResolutionPurpose,
    now: u64,
    now_ms: u64,
) -> (AppContent, Result<KeyPackageContent, ErrorContent>) {
    match answer {
        Err(error) => (
            app,
            Err(ErrorContent::RelayDirectory("fetch key packages: "@ + error)),
        ),
        Ok(records) => match target_entry(app, target) {
            Err(error) => (app, Err(error)),
            Ok(cached) => match offered_package(
                app,
                target.account_id_hex,
                records,
                cached,
                entry_decoding(table, cached),
                freshness_at(app, now),
            ) {
                Err(error) => (app, Err(error)),
                Ok(offered) => accepted(
                    app,
                    purpose,
                    FetchedContent { relay_lists: target.relay_lists, ..offered },
                    table,
                    now,
                    now_ms,
                ),
            },
        },
    }
}

/// The positions below a bound that a list names, ascending and each once.
pub open spec fn ascending_positions(indices: Seq<int>, bound: nat) -> Seq<int>
    decreases bound,
{
    if bound == 0 {
        Seq::empty()
    } else {
        let before = ascending_positions(indices, (bound - 1) as nat);
        if indices.contains(bound - 1) {
            before.push(bound - 1)
        } else {
            before
        }
    }
}

/// Orders positions, each once.
pub fn order_positions(indices: &Vec<usize>, bound: usize) -> (ordered: Vec<usize>)
    ensures
        positions(ordered@) == ascending_positions(positions(indices@), bound as nat),
        indices_below(ordered@, bound as nat),
{
    let ghost all = positions(indices@);
    let mut ordered: Vec<usize> = Vec::new();
    let mut i: usize = 0;
    assert(positions(ordered@) =~= Seq::<int>::empty());
    while i < bound
        invariant
            i <= bound,
            all == positions(indices@),
            positions(ordered@) == ascending_positions(all, i as nat),
            indices_below(ordered@, i as nat),
        decreases bound - i,
    {
        let mut named = false;
        let mut k: usize = 0;
        while k < indices.len() && !named
            invariant
                k <= indices@.len(),
                all == positions(indices@),
                named ==> all.contains(i as int),
                !named ==> forall|j: int| 0 <= j < k ==> #[trigger] all[j] != i,
            decreases indices.len() - k,
        {
            if indices[k] == i {
                assert(all[k as int] == i);
                named = true;
            } else {
                assert(all[k as int] != i);
            }
            k += 1;
        }
        if named {
            let ghost before = positions(ordered@);
            ordered.push(i);
            assert(positions(ordered@) =~= before.push(i as int));
        }
        i += 1;
    }
    ordered
}

/// The key packages of all members, or the error of the first that has one.
pub open spec fn assembled(
    targets: Seq<TargetContent>,
    outcomes: Seq<Option<Result<KeyPackageContent, ErrorContent>>>,
) -> Result<Seq<KeyPackageContent>, ErrorContent>
    decreases outcomes.len(),
{
    if outcomes.len() == 0 {
        Ok(Seq::empty())
    } else {
        match assembled(targets, outcomes.drop_last()) {
            Err(error) => Err(error),
            Ok(before) => match outcomes.last() {
                None => Err(
                    ErrorContent::MissingKeyPackage(targets[outcomes.len() - 1].account_id_hex),
                ),
                Some(Err(error)) => Err(error),
                Some(Ok(package)) => Ok(before.push(package)),
            },
        }
    }
}

/// The key packages of a roster, in its order.
#[derive(Debug)]
pub struct ResolvedMemberKeyPackages {
    pub key_packages: Vec<KeyPackage>,
    pub stats: MemberKeyPackageResolutionStats,
}

/// Puts the outcomes of all members together.
pub fn assemble_member_key_packages(
    targets: &Vec<MemberTarget>,
    outcomes: Outcomes,
    requested_members: usize,
    reused_members: usize,
    network_resolved_members: usize,
) -> (result: Result<ResolvedMemberKeyPackages, AppError>)
    requires
        outcomes@.len() == targets@.len(),
    ensures
        match (assembled(targets.deep_view(), outcomes_of(outcomes@)), result) {
            (Ok(packages), Ok(resolved)) => {
                &&& resolved.key_packages.deep_view() == packages
                &&& resolved.stats == (MemberKeyPackageResolutionStats {
                    requested_members,
                    unique_members: targets@.len() as usize,
                    reused_members,
                    network_resolved_members,
                })
            },
            (Err(expected), Err(error)) => error.deep_view() == expected,
            _ => false,
        },
{
    let ghost t = targets.deep_view();
    let ghost items = outcomes@;
    let ghost all = outcomes_of(outcomes@);
    let unique_members: usize = targets.len();
    let mut source = outcomes;
    let mut key_packages: Vec<KeyPackage> = Vec::new();
    let mut i: usize = 0;
    assert(key_packages.deep_view() =~= Seq::<KeyPackageContent>::empty());
    assert(all.take(0) =~= Seq::empty());
    assert(items.skip(0) =~= items);
    while source.len() > 0
        invariant
            i + source@.len() == items.len(),
            items.len() == targets@.len(),
            items.len() == unique_members,
            source@ == items.skip(i as int),
            all == outcomes_of(items),
            all == outcomes_of(outcomes@),
            t == targets.deep_view(),
            assembled(t, all.take(i as int)) == Ok::<Seq<KeyPackageContent>, ErrorContent>(
                key_packages.deep_view(),
            ),
        decreases source.len(),
    {
        assert(all.take(i + 1).drop_last() =~= all.take(i as int));
        let outcome = source.remove(0);
        assert(outcome == items[i as int]);
        assert(source@ =~= items.skip(i + 1));
        assert(all.take(i + 1).last() == outcome_of(outcome));
        assert(t[i as int] == targets@[i as int].deep_view());
        match outcome {
            Some(Ok(package)) => {
                let ghost before = key_packages.deep_view();
                key_packages.push(package);
                assert(key_packages.deep_view() =~= before.push(package.deep_view()));
            },
            Some(Err(error)) => {
                proof {
                    lemma_assembly_stops(t, all, i + 1, error.deep_view());
                }
                return Err(error);
            },
            None => {
                let error = AppError::MissingKeyPackage(targets[i].account_id_hex.clone());
                proof {
                    lemma_assembly_stops(t, all, i + 1, error.deep_view());
                }
                return Err(error);
            },
        }
        i += 1;
    }
    assert(all.take(all.len() as int) =~= all);
    Ok(
        ResolvedMemberKeyPackages {
            key_packages,
            stats: MemberKeyPackageResolutionStats {
                requested_members,
                unique_members,
                reused_members,
                network_resolved_members,
            },
        },
    )
}

proof fn lemma_assembly_stops(
    targets: Seq<TargetContent>,
    outcomes: Seq<Option<Result<KeyPackageContent, ErrorContent>>>,
    n: int,
    error: ErrorContent,
)
    requires
        0 <= n <= outcomes.len(),
        assembled(targets, outcomes.take(n)) == Err::<Seq<KeyPackageContent>, ErrorContent>(error),
    ensures
        assembled(targets, outcomes) == Err::<Seq<KeyPackageContent>, ErrorContent>(error),
    decreases outcomes.len() - n,
{
    if n < outcomes.len() {
        assert(outcomes.take(n + 1).drop_last() =~= outcomes.take(n));
        lemma_assembly_stops(targets, outcomes, n + 1, error);
    } else {
        assert(outcomes.take(n) =~= outcomes);
    }
}

impl MarmotApp {
    /// Plans the queries for the key packages of open members, given which of each
    /// member's relays may be used. A member for whom no relay is known has failed.
    pub fn plan_member_package_requests(
        &self,
        targets: &Vec<MemberTarget>,
        usable: &Vec<Vec<String>>,
        unresolved: &Vec<usize>,
        outcomes: &mut Outcomes,
    ) -> (requests: Vec<KeyPackageRequest>)
        requires
            indices_below(unresolved@, targets@.len()),
            usable@.len() == targets@.len(),
            old(outcomes)@.len() == targets@.len(),
        ensures
            ({
                let (groups, settled) = grouped_all(
                    self@,
                    usable.deep_view(),
                    positions(unresolved@),
                    outcomes_of(old(outcomes)@),
                );
                &&& requests.deep_view() == all_requests(targets.deep_view(), groups)
                &&& outcomes_of(final(outcomes)@) == settled
            }),
            final(outcomes)@.len() == targets@.len(),
            requests_below(requests@, targets@.len()),
    {
        let none: Vec<String> = Vec::new();
        assert(none.deep_view() =~= Seq::<Seq<char>>::empty());
        let defaults = self.directory_source_relays(&none);
        let ghost all = positions(unresolved@);
        let ghost u = usable.deep_view();
        let ghost start = outcomes_of(outcomes@);
        let mut groups: Vec<RelayGroup> = Vec::new();
        let mut k: usize = 0;
        assert(all.take(0) =~= Seq::<int>::empty());
        assert(groups.deep_view() =~= Seq::<GroupContent>::empty());
        while k < unresolved.len()
            invariant
                k <= unresolved@.len(),
                all == positions(unresolved@),
                u == usable.deep_view(),
                start == outcomes_of(old(outcomes)@),
                usable@.len() == targets@.len(),
                indices_below(unresolved@, targets@.len()),
                outcomes@.len() == targets@.len(),
                defaults.deep_view() == source_relays_of(self@, Seq::empty()),
                groups_below(groups@, targets@.len()),
                (groups.deep_view(), outcomes_of(outcomes@)) == grouped_all(
                    self@,
                    u,
                    all.take(k as int),
                    start,
                ),
            decreases unresolved.len() - k,
        {
            assert(all.take(k + 1).drop_last() =~= all.take(k as int));
            assert(all.take(k + 1).last() == unresolved@[k as int] as int);
            let index = unresolved[k];
            assert(u[index as int] == usable@[index as int].deep_view());
            let endpoints = if usable[index].len() > 0 {
                copy_list(&usable[index])
            } else {
                copy_list(&defaults)
            };
            let endpoints = sort_dedup(endpoints);
            if endpoints.len() == 0 {
                let ghost before = outcomes_of(outcomes@);
                let failure = missing_route();
                let settled = Some(failure);
                outcomes.set(index, settled);
                assert(outcomes_of(outcomes@) =~= before.update(
                    index as int,
                    outcome_of(settled),
                ));
            } else {
                enter_group(&mut groups, endpoints, index, Ghost(targets@.len()));
            }
            k += 1;
        }
        assert(all.take(all.len() as int) =~= all);
        let ghost gs = groups.deep_view();
        let mut requests: Vec<KeyPackageRequest> = Vec::new();
        let mut g: usize = 0;
        assert(requests.deep_view() =~= all_requests(targets.deep_view(), gs.take(0)));
        while g < groups.len()
            invariant
                g <= groups@.len(),
                gs == groups.deep_view(),
                groups_below(groups@, targets@.len()),
                requests_below(requests@, targets@.len()),
                requests.deep_view() == all_requests(targets.deep_view(), gs.take(g as int)),
            decreases groups.len() - g,
        {
            assert(gs.take(g + 1).drop_last() =~= gs.take(g as int));
            assert(gs.take(g + 1).last() == groups@[g as int].deep_view());
            assert(indices_below(groups@[g as int].indices@, targets@.len()));
            push_group_requests(&mut requests, targets, &groups[g]);
            g += 1;
        }
        assert(gs.take(gs.len() as int) =~= gs);
        requests
    }

    fn serve_member(
        &mut self,
        target: &MemberTarget,
        index: usize,
        records: &Vec<KeyPackageEventRecord>,
        table: &KeyPackageDecodings,
        purpose: MemberResolutionPurpose,
        outcomes: &mut Outcomes,
        fallback: &mut Vec<usize>,
        now: u64,
        now_ms: u64,
    )
        requires
            now <= i64::MAX,
            index < old(outcomes)@.len(),
        ensures
            (FetchProgress {
                app: final(self)@,
                outcomes: outcomes_of(final(outcomes)@),
                fallback: positions(final(fallback)@),
            }) == served(
                FetchProgress {
                    app: old(self)@,
                    outcomes: outcomes_of(old(outcomes)@),
                    fallback: positions(old(fallback)@),
                },
                target.deep_view(),
                index as int,
                records.deep_view(),
                table@,
                purpose,
                now,
                now_ms,
            ),
            final(outcomes)@.len() == old(outcomes)@.len(),
            final(fallback)@ == old(fallback)@ || final(fallback)@ == old(fallback)@.push(index),
    {
        let own = select_packages(records, &target.account_id_hex);
        let cached = match self.directory_entry_for_member_target(target) {
            Ok(entry) => entry,
            Err(_) => None,
        };
        let metadata = decoding_of_entry(table, &cached);
        let freshness = self.directory_freshness(now);
        match self.choose_offered_package(
            &target.account_id_hex,
            own,
            cached,
            metadata,
            freshness,
        ) {
            Err(_) => {
                let ghost before = positions(fallback@);
                fallback.push(index);
                assert(positions(fallback@) =~= before.push(index as int));
            },
            Ok(offered) => {
                let mut fetched = offered;
                fetched.relay_lists = target.relay_lists.duplicate();
                let package = self.accept_prefetched_key_package(
                    purpose,
                    fetched,
                    table,
                    now,
                    now_ms,
                );
                let ghost before = outcomes_of(outcomes@);
                let settled = Some(package);
                outcomes.set(index, settled);
                assert(outcomes_of(outcomes@) =~= before.update(
                    index as int,
                    outcome_of(settled),
                ));
            },
        }
    }

    /// Looks at what relays answered a batch with, member by member. One that the
    /// batch did not serve is to be fetched on its own.
    pub fn serve_member_batch(
        &mut self,
        targets: &Vec<MemberTarget>,
        indices: &Vec<usize>,
        records: &Vec<KeyPackageEventRecord>,
        table: &KeyPackageDecodings,
        purpose: MemberResolutionPurpose,
        outcomes: &mut Outcomes,
        fallback: &mut Vec<usize>,
        now: u64,
        now_ms: u64,
    )
        requires
            now <= i64::MAX,
            indices_below(indices@, targets@.len()),
            old(outcomes)@.len() == targets@.len(),
            indices_below(old(fallback)@, targets@.len()),
        ensures
            (FetchProgress {
                app: final(self)@,
                outcomes: outcomes_of(final(outcomes)@),
                fallback: positions(final(fallback)@),
            }) == batch_served(
                FetchProgress {
                    app: old(self)@,
                    outcomes: outcomes_of(old(outcomes)@),
                    fallback: positions(old(fallback)@),
                },
                targets.deep_view(),
                positions(indices@),
                records.deep_view(),
                table@,
                purpose,
                now,
                now_ms,
            ),
            final(outcomes)@.len() == targets@.len(),
            indices_below(final(fallback)@, targets@.len()),
    {
        let ghost start = FetchProgress {
            app: self@,
            outcomes: outcomes_of(outcomes@),
            fallback: positions(fallback@),
        };
        let ghost all = positions(indices@);
        let ghost t = targets.deep_view();
        let mut k: usize = 0;
        assert(all.take(0) =~= Seq::<int>::empty());
        while k < indices.len()
            invariant
                k <= indices@.len(),
                now <= i64::MAX,
                all == positions(indices@),
                t == targets.deep_view(),
                indices_below(indices@, targets@.len()),
                outcomes@.len() == targets@.len(),
                indices_below(fallback@, targets@.len()),
                (FetchProgress {
                    app: self@,
                    outcomes: outcomes_of(outcomes@),
                    fallback: positions(fallback@),
                }) == batch_served(
                    start,
                    t,
                    all.take(k as int),
                    records.deep_view(),
                    table@,
                    purpose,
                    now,
                    now_ms,
                ),
            decreases indices.len() - k,
        {
            assert(all.take(k + 1).drop_last() =~= all.take(k as int));
            assert(all.take(k + 1).last() == indices@[k as int] as int);
            let index = indices[k];
            assert(t[index as int] == targets@[index as int].deep_view());
            self.serve_member(
                &targets[index],
                index,
                records,
                table,
                purpose,
                outcomes,
                fallback,
                now,
                now_ms,
            );
            k += 1;
        }
        assert(all.take(all.len() as int) =~= all);
    }

    /// The relays and the query to fetch a member on its own; nothing where there is
    /// no relay to ask.
    pub fn plan_member_fallback(&self, target: &MemberTarget, usable: &Vec<String>) -> (request:
        Option<(Vec<String>, DirectoryEventQuery)>)
        ensures
            match request {
                None => fetch_relays(self@, usable.deep_view()).len() == 0,
                Some((endpoints, query)) => {
                    &&& endpoints.deep_view() == fetch_relays(self@, usable.deep_view())
                    &&& endpoints@.len() > 0
                    &&& query.deep_view() == package_query(
                        seq![target.deep_view().account_id_hex],
                    )
                },
            },
            usable@.len() > 0 ==> (request matches Some((endpoints, _)) && endpoints.deep_view()
                == usable.deep_view()),
            usable@.len() == 0 && self@.config.directory_relay_urls.len() > 0 ==> (request matches
                Some((endpoints, _)) && endpoints.deep_view()
                == self@.config.directory_relay_urls),
            usable@.len() == 0 && self@.config.directory_relay_urls.len() == 0 ==> match request {
                Some((endpoints, _)) => endpoints.deep_view() == self@.config.relay_urls,
                None => self@.config.relay_urls.len() == 0,
            },
            request matches Some((_, query)) ==> query.deep_view().kind == KIND_MARMOT_KEY_PACKAGE
                && query.deep_view().authors == seq![target.deep_view().account_id_hex]
                && query.deep_view().limit == KEY_PACKAGE_EVENTS_PER_AUTHOR,
    {
        let none: Vec<String> = Vec::new();
        assert(none.deep_view() =~= Seq::<Seq<char>>::empty());
        let endpoints = if usable.len() > 0 {
            copy_list(usable)
        } else {
            self.directory_source_relays(&none)
        };
        if endpoints.len() == 0 {
            return None;
        }
        let mut authors: Vec<String> = Vec::new();
        authors.push(target.account_id_hex.clone());
        assert(authors.deep_view() =~= seq![target.deep_view().account_id_hex]);
        Some((endpoints, member_package_query(authors)))
    }

    /// Looks at what relays answered for one member alone.
    pub fn serve_member_alone(
        &mut self,
        target: &MemberTarget,
        answer: Result<Vec<KeyPackageEventRecord>, String>,
        table: &KeyPackageDecodings,
        purpose: MemberResolutionPurpose,
        now: u64,
        now_ms: u64,
    ) -> (result: Result<KeyPackage, AppError>)
        requires
            now <= i64::MAX,
        ensures
            (final(self)@, outcome(result)) == alone(
                old(self)@,
                target.deep_view(),
                match answer {
                    Ok(records) => Ok(records.deep_view()),
                    Err(error) => Err(error@),
                },
                table@,
                purpose,
                now,
                now_ms,
            ),
    {
        let records = match answer {
            Err(error) => {
                return Err(
                    AppError::RelayDirectory(join("fetch key packages: ", error.as_str())),
                );
            },
            Ok(records) => records,
        };
        let cached = match self.directory_entry_for_member_target(target) {
            Err(error) => return Err(error),
            Ok(cached) => cached,
        };
        let metadata = decoding_of_entry(table, &cached);
        let freshness = self.directory_freshness(now);
        match self.choose_offered_package(
            &target.account_id_hex,
            records,
            cached,
            metadata,
            freshness,
        ) {
            Err(error) => Err(error),
            Ok(offered) => {
                let mut fetched = offered;
                fetched.relay_lists = target.relay_lists.duplicate();
                self.accept_prefetched_key_package(purpose, fetched, table, now, now_ms)
            },
        }
    }
}

/// A roster is resolved as a whole: with one key package for each member, in order.
pub proof fn law_resolved_roster_is_complete(
    targets: Seq<TargetContent>,
    outcomes: Seq<Option<Result<KeyPackageContent, ErrorContent>>>,
)
    requires
        assembled(targets, outcomes) is Ok,
    ensures
        assembled(targets, outcomes)->Ok_0.len() == outcomes.len(),
        forall|i: int|
            0 <= i < outcomes.len() ==> #[trigger] outcomes[i] == Some(
                Ok::<KeyPackageContent, ErrorContent>(assembled(targets, outcomes)->Ok_0[i]),
            ),
    decreases outcomes.len(),
{
    if outcomes.len() > 0 {
        let rest = outcomes.drop_last();
        law_resolved_roster_is_complete(targets, rest);
        assert forall|i: int| 0 <= i < outcomes.len() implies #[trigger] outcomes[i] == Some(
            Ok::<KeyPackageContent, ErrorContent>(assembled(targets, outcomes)->Ok_0[i]),
        ) by {
            if i < rest.len() {
                assert(rest[i] == outcomes[i]);
            }
        }
    }
}

/// The error of a roster is that of its first member without a key package, however
/// the answers came in.
pub proof fn law_first_unresolved_member_decides(
    targets: Seq<TargetContent>,
    outcomes: Seq<Option<Result<KeyPackageContent, ErrorContent>>>,
    k: int,
)
    requires
        0 <= k < outcomes.len(),
        outcomes[k] is None || outcomes[k]->0 is Err,
        forall|i: int|
            0 <= i < k ==> #[trigger] outcomes[i] is Some && outcomes[i]->0 is Ok,
    ensures
        assembled(targets, outcomes) == Err::<Seq<KeyPackageContent>, ErrorContent>(
            match outcomes[k] {
                None => ErrorContent::MissingKeyPackage(targets[k].account_id_hex),
                Some(outcome) => outcome->Err_0,
            },
        ),
    decreases outcomes.len(),
{
    let rest = outcomes.drop_last();
    if k < rest.len() {
        assert(rest[k] == outcomes[k]);
        assert forall|i: int| 0 <= i < k implies #[trigger] rest[i] is Some
            && rest[i]->0 is Ok by {
            assert(rest[i] == outcomes[i]);
        }
        law_first_unresolved_member_decides(targets, rest, k);
    } else {
        lemma_all_resolved(targets, rest);
    }
}

proof fn lemma_all_resolved(
    targets: Seq<TargetContent>,
    outcomes: Seq<Option<Result<KeyPackageContent, ErrorContent>>>,
)
    requires
        forall|i: int|
            0 <= i < outcomes.len() ==> #[trigger] outcomes[i] is Some && outcomes[i]->0 is Ok,
    ensures
        assembled(targets, outcomes) is Ok,
    decreases outcomes.len(),
{
    if outcomes.len() > 0 {
        let rest = outcomes.drop_last();
        assert forall|i: int| 0 <= i < rest.len() implies #[trigger] rest[i] is Some
            && rest[i]->0 is Ok by {
            assert(rest[i] == outcomes[i]);
        }
        lemma_all_resolved(targets, rest);
        assert(outcomes[outcomes.len() - 1] is Some);
    }
}

} // verus!
