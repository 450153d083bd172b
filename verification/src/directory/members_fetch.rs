//! Fetching what is missing for a group's members: in batches by relays, with a
//! query of its own for each member where a batch did not serve it.

use crate::collections::{copy_list, Key};
use crate::directory::app_entry::source_relays_of;
use crate::directory::app_fetch::{filled, fill_relay_lists, with_starting_relays};
use crate::directory::app_state::{AppContent, MarmotApp};
use crate::directory::key_packages::{outcome, KeyPackage, KeyPackageContent};
use crate::directory::members::{
    reuse_of, DecodedContent, KeyPackageDecodings, MemberResolutionPurpose, MemberTarget, Reuse,
    ReuseContent, TargetContent,
};
use crate::directory::records::{
    fresh_lists, fresh_relay_list_status_from_records, refreshed, relay_list_status,
    AccountRelayListStatus, DirectoryEventQuery, DirectoryFreshness, EventRecordContent,
    QueryContent, RelayEventRecord, RelayListStatusContent, KIND_MARMOT_INBOX_RELAY_LIST,
    KIND_NIP65_RELAY_LIST,
};
use crate::error::{AppError, ErrorContent};
use vstd::prelude::*;

verus! {

/// How many accounts one query asks for.
pub const MEMBER_RESOLUTION_AUTHORS_PER_QUERY: usize = 32;

/// How many key package events of each account a query asks for.
pub const KEY_PACKAGE_EVENTS_PER_AUTHOR: usize = 12;

/// How many relay-list events of each account a query asks for.
pub const RELAY_LIST_EVENTS_PER_AUTHOR: usize = 4;

/// The content of an outcome that may still be open.
pub open spec fn outcome_of(outcome: Option<Result<KeyPackage, AppError>>) -> Option<
    Result<KeyPackageContent, ErrorContent>,
> {
    match outcome {
        None => None,
        Some(Ok(package)) => Some(Ok(package.deep_view())),
        Some(Err(error)) => Some(Err(error.deep_view())),
    }
}

pub open spec fn outcomes_of(outcomes: Seq<Option<Result<KeyPackage, AppError>>>) -> Seq<
    Option<Result<KeyPackageContent, ErrorContent>>,
> {
    outcomes.map_values(|o: Option<Result<KeyPackage, AppError>>| outcome_of(o))
}

/// Where the resolution of members stands.
#[verifier::ext_equal]
pub struct Progress {
    pub app: AppContent,
    pub outcomes: Seq<Option<Result<KeyPackageContent, ErrorContent>>>,
    pub unresolved: Seq<int>,
    pub reused: nat,
}

/// Where the resolution stands after what is known of each target was reused. A
/// fault in reading what is known ends it.
pub open spec fn reused_all(
    app: AppContent,
    targets: Seq<TargetContent>,
    table: Seq<DecodedContent>,
    purpose: MemberResolutionPurpose,
    now: u64,
    now_ms: u64,
) -> (Progress, Option<ErrorContent>)
    decreases targets.len(),
{
    if targets.len() == 0 {
        (
            Progress { app, outcomes: Seq::empty(), unresolved: Seq::empty(), reused: 0 },
            None,
        )
    } else {
        let (before, fault) = reused_all(app, targets.drop_last(), table, purpose, now, now_ms);
        if fault is Some {
            (before, fault)
        } else {
            let (after, reuse) = reuse_of(
                before.app,
                targets.last(),
                table,
                purpose,
                now,
                now_ms,
            );
            match reuse {
                Err(error) => (Progress { app: after, ..before }, Some(error)),
                Ok(ReuseContent::Unavailable) => (
                    Progress {
                        app: after,
                        outcomes: before.outcomes.push(
                            Some(
                                Err(
                                    ErrorContent::MissingKeyPackage(
                                        targets.last().account_id_hex,
                                    ),
                                ),
                            ),
                        ),
                        ..before
                    },
                    None,
                ),
                Ok(ReuseContent::Reused(package)) => (
                    Progress {
                        app: after,
                        outcomes: before.outcomes.push(Some(Ok(package))),
                        reused: before.reused + 1,
                        ..before
                    },
                    None,
                ),
                Ok(ReuseContent::Unresolved) => (
                    Progress {
                        app: after,
                        outcomes: before.outcomes.push(None),
                        unresolved: before.unresolved.push(targets.len() - 1),
                        ..before
                    },
                    None,
                ),
            }
        }
    }
}

pub open spec fn positions(indices: Seq<usize>) -> Seq<int> {
    indices.map_values(|i: usize| i as int)
}

/// What reusing gave.
#[derive(Debug)]
pub struct ReusedMembers {
    pub outcomes: Vec<Option<Result<KeyPackage, AppError>>>,
    pub unresolved: Vec<usize>,
    pub reused_members: usize,
}

impl MarmotApp {
    /// Reuses what is known of each target.
    pub fn reuse_member_key_packages(
        &mut self,
        targets: &Vec<MemberTarget>,
        table: &KeyPackageDecodings,
        purpose: MemberResolutionPurpose,
        now: u64,
        now_ms: u64,
    ) -> (result: Result<ReusedMembers, AppError>)
        requires
            now <= i64::MAX,
        ensures
            ({
                let (progress, fault) = reused_all(
                    old(self)@,
                    targets.deep_view(),
                    table@,
                    purpose,
                    now,
                    now_ms,
                );
                &&& final(self)@ == progress.app
                &&& match (fault, result) {
                    (None, Ok(reused)) => {
                        &&& outcomes_of(reused.outcomes@) == progress.outcomes
                        &&& positions(reused.unresolved@) == progress.unresolved
                        &&& reused.reused_members == progress.reused
                        &&& reused.outcomes@.len() == targets@.len()
                        &&& indices_below(reused.unresolved@, targets@.len())
                    },
                    (Some(expected), Err(error)) => error.deep_view() == expected,
                    _ => false,
                }
            }),
    {
        let ghost all = targets.deep_view();
        let ghost start = self@;
        let mut outcomes: Vec<Option<Result<KeyPackage, AppError>>> = Vec::new();
        let mut unresolved: Vec<usize> = Vec::new();
        let mut reused_members: usize = 0;
        let mut i: usize = 0;
        assert(all.take(0) =~= Seq::<TargetContent>::empty());
        assert(outcomes_of(outcomes@) =~= Seq::empty());
        assert(positions(unresolved@) =~= Seq::<int>::empty());
        while i < targets.len()
            invariant
                i <= targets@.len(),
                now <= i64::MAX,
                all == targets.deep_view(),
                start == old(self)@,
                reused_members <= i,
                outcomes@.len() == i,
                indices_below(unresolved@, i as nat),
                reused_all(start, all.take(i as int), table@, purpose, now, now_ms) == (
                    Progress {
                        app: self@,
                        outcomes: outcomes_of(outcomes@),
                        unresolved: positions(unresolved@),
                        reused: reused_members as nat,
                    },
                    None::<ErrorContent>,
                ),
            decreases targets.len() - i,
        {
            assert(all.take(i + 1).drop_last() =~= all.take(i as int));
            assert(all.take(i + 1).last() == targets@[i as int].deep_view());
            let ghost o = outcomes_of(outcomes@);
            let ghost u = positions(unresolved@);
            match self.reuse_member_key_package(&targets[i], table, purpose, now, now_ms) {
                Err(error) => {
                    proof {
                        lemma_reuse_stops(start, all, i + 1, table@, purpose, now, now_ms);
                    }
                    return Err(error);
                },
                Ok(Reuse::Unavailable) => {
                    let error = AppError::MissingKeyPackage(targets[i].account_id_hex.clone());
                    let missing = Some(Err(error));
                    outcomes.push(missing);
                    assert(outcomes_of(outcomes@) =~= o.push(outcome_of(missing)));
                },
                Ok(Reuse::Reused(package)) => {
                    let found = Some(Ok(package));
                    outcomes.push(found);
                    assert(outcomes_of(outcomes@) =~= o.push(outcome_of(found)));
                    reused_members += 1;
                },
                Ok(Reuse::Unresolved) => {
                    outcomes.push(None);
                    assert(outcomes_of(outcomes@) =~= o.push(None));
                    unresolved.push(i);
                    assert(positions(unresolved@) =~= u.push(i as int));
                },
            }
            i += 1;
        }
        assert(all.take(all.len() as int) =~= all);
        Ok(ReusedMembers { outcomes, unresolved, reused_members })
    }
}

/// Whether every index is below a bound.
pub open spec fn indices_below(indices: Seq<usize>, bound: nat) -> bool {
    forall|k: int| 0 <= k < indices.len() ==> (#[trigger] indices[k]) < bound
}

proof fn lemma_reuse_stops(
    app: AppContent,
    targets: Seq<TargetContent>,
    n: int,
    table: Seq<DecodedContent>,
    purpose: MemberResolutionPurpose,
    now: u64,
    now_ms: u64,
)
    requires
        0 <= n <= targets.len(),
        reused_all(app, targets.take(n), table, purpose, now, now_ms).1 is Some,
    ensures
        reused_all(app, targets, table, purpose, now, now_ms) == reused_all(
            app,
            targets.take(n),
            table,
            purpose,
            now,
            now_ms,
        ),
    decreases targets.len() - n,
{
    if n < targets.len() {
        assert(targets.take(n + 1).drop_last() =~= targets.take(n));
        lemma_reuse_stops(app, targets, n + 1, table, purpose, now, now_ms);
    } else {
        assert(targets.take(n) =~= targets);
    }
}

/// The members for whom no route is known.
pub open spec fn without_route(targets: Seq<TargetContent>, unresolved: Seq<int>) -> Seq<int> {
    unresolved.filter(|i: int| targets[i].relay_lists.nip65.relays.len() == 0)
}

fn find_without_route(targets: &Vec<MemberTarget>, unresolved: &Vec<usize>) -> (indices: Vec<usize>)
    requires
        indices_below(unresolved@, targets@.len()),
    ensures
        positions(indices@) == without_route(targets.deep_view(), positions(unresolved@)),
        indices_below(indices@, targets@.len()),
{
    let ghost all = positions(unresolved@);
    let ghost t = targets.deep_view();
    let ghost keep = |i: int| t[i].relay_lists.nip65.relays.len() == 0;
    let mut indices: Vec<usize> = Vec::new();
    let mut k: usize = 0;
    proof {
        reveal(Seq::filter);
        assert(all.take(0).filter(keep) =~= Seq::<int>::empty());
        assert(positions(indices@) =~= Seq::<int>::empty());
    }
    while k < unresolved.len()
        invariant
            k <= unresolved@.len(),
            indices_below(unresolved@, targets@.len()),
            indices_below(indices@, targets@.len()),
            all == positions(unresolved@),
            t == targets.deep_view(),
            keep == (|i: int| t[i].relay_lists.nip65.relays.len() == 0),
            positions(indices@) == all.take(k as int).filter(keep),
        decreases unresolved.len() - k,
    {
        let index = unresolved[k];
        assert(t[index as int] == targets@[index as int].deep_view());
        proof {
            assert(all.take(k + 1).drop_last() =~= all.take(k as int));
            assert(all.take(k + 1).last() == index as int);
            reveal(Seq::filter);
        }
        if targets[index].relay_lists.nip65.relays.len() == 0 {
            let ghost before = positions(indices@);
            indices.push(index);
            assert(positions(indices@) =~= before.push(index as int));
        }
        k += 1;
    }
    assert(all.take(all.len() as int) =~= all);
    assert(positions(indices@) == without_route(t, all));
    indices
}

/// The identities of some targets.
pub open spec fn ids_at(targets: Seq<TargetContent>, indices: Seq<int>) -> Seq<Seq<char>> {
    indices.map_values(|i: int| targets[i].account_id_hex)
}

pub(crate) fn collect_ids(targets: &Vec<MemberTarget>, indices: &Vec<usize>) -> (ids: Vec<String>)
    requires
        indices_below(indices@, targets@.len()),
    ensures
        ids.deep_view() == ids_at(targets.deep_view(), positions(indices@)),
        ids@.len() == indices@.len(),
{
    let ghost t = targets.deep_view();
    let mut ids: Vec<String> = Vec::new();
    let mut k: usize = 0;
    while k < indices.len()
        invariant
            k <= indices@.len(),
            indices_below(indices@, targets@.len()),
            t == targets.deep_view(),
            ids@.len() == k,
            forall|j: int|
                0 <= j < k ==> (#[trigger] ids@[j])@ == t[indices@[j] as int].account_id_hex,
        decreases indices.len() - k,
    {
        let index = indices[k];
        assert(t[index as int] == targets@[index as int].deep_view());
        ids.push(targets[index].account_id_hex.clone());
        k += 1;
    }
    assert(ids.deep_view() =~= ids_at(t, positions(indices@)));
    ids
}

/// One chunk of indices.
#[derive(Debug)]
pub struct Chunk {
    pub indices: Vec<usize>,
}

/// Indices cut into chunks of at most a size.
pub open spec fn chunked(indices: Seq<int>, size: nat) -> Seq<Seq<int>>
    decreases indices.len(),
{
    if indices.len() == 0 || size == 0 {
        Seq::empty()
    } else {
        let n = if indices.len() < size {
            indices.len() as int
        } else {
            size as int
        };
        seq![indices.take(n)] + chunked(indices.skip(n), size)
    }
}

pub open spec fn chunks_of(chunks: Seq<Chunk>) -> Seq<Seq<int>> {
    chunks.map_values(|c: Chunk| positions(c.indices@))
}

/// Cuts indices into chunks of at most as many as one query asks for.
pub(crate) fn cut_into_chunks(indices: &Vec<usize>, Ghost(bound): Ghost<nat>) -> (chunks: Vec<Chunk>)
    requires
        indices_below(indices@, bound),
    ensures
        chunks_of(chunks@) == chunked(
            positions(indices@),
            MEMBER_RESOLUTION_AUTHORS_PER_QUERY as nat,
        ),
        forall|c: int|
            0 <= c < chunks@.len() ==> indices_below((#[trigger] chunks@[c]).indices@, bound)
                && chunks@[c].indices@.len() <= MEMBER_RESOLUTION_AUTHORS_PER_QUERY,
{
    let ghost all = positions(indices@);
    let ghost expected = chunked(all, MEMBER_RESOLUTION_AUTHORS_PER_QUERY as nat);
    let mut chunks: Vec<Chunk> = Vec::new();
    let mut done: usize = 0;
    assert(all.skip(0) =~= all);
    assert(chunks_of(chunks@) + expected =~= expected);
    let total: usize = indices.len();
    while done < total
        invariant
            done <= total,
            total == indices@.len(),
            all == positions(indices@),
            indices_below(indices@, bound),
            chunks_of(chunks@) + chunked(
                all.skip(done as int),
                MEMBER_RESOLUTION_AUTHORS_PER_QUERY as nat,
            ) == expected,
            forall|c: int|
                0 <= c < chunks@.len() ==> indices_below((#[trigger] chunks@[c]).indices@, bound)
                    && chunks@[c].indices@.len() <= MEMBER_RESOLUTION_AUTHORS_PER_QUERY,
        decreases total - done,
    {
        let left = total - done;
        let n = if left < MEMBER_RESOLUTION_AUTHORS_PER_QUERY {
            left
        } else {
            MEMBER_RESOLUTION_AUTHORS_PER_QUERY
        };
        let ghost rest = all.skip(done as int);
        let mut part: Vec<usize> = Vec::new();
        let mut k: usize = 0;
        while k < n
            invariant
                k <= n,
                done + n <= total,
                total == indices@.len(),
                all == positions(indices@),
                rest == all.skip(done as int),
                indices_below(indices@, bound),
                indices_below(part@, bound),
                positions(part@) == rest.take(k as int),
            decreases n - k,
        {
            let ghost before = positions(part@);
            part.push(indices[done + k]);
            assert(positions(part@) =~= before.push(rest[k as int]));
            assert(rest.take(k + 1) =~= rest.take(k as int).push(rest[k as int]));
            k += 1;
        }
        assert(positions(part@).len() == n);
        let ghost held = chunks_of(chunks@);
        let chunk = Chunk { indices: part };
        chunks.push(chunk);
        assert(chunks_of(chunks@) =~= held.push(positions(part@)));
        assert(rest.skip(n as int) =~= all.skip(done + n));
        proof {
            let tail = chunked(all.skip(done + n), MEMBER_RESOLUTION_AUTHORS_PER_QUERY as nat);
            assert(held + (seq![rest.take(n as int)] + tail) =~= held.push(rest.take(n as int))
                + tail);
        }
        done += n;
    }
    assert(chunks_of(chunks@) =~= expected);
    chunks
}

/// A query for the relay lists of some members.
#[derive(Debug)]
pub struct RelayListRequest {
    pub indices: Vec<usize>,
    pub queries: Vec<DirectoryEventQuery>,
}

/// The content of a [`RelayListRequest`].
#[verifier::ext_equal]
pub struct ListRequestContent {
    pub indices: Seq<int>,
    pub queries: Seq<QueryContent>,
}

impl DeepView for RelayListRequest {
    type V = ListRequestContent;

    open spec fn deep_view(&self) -> ListRequestContent {
        ListRequestContent {
            indices: positions(self.indices@),
            queries: self.queries.deep_view(),
        }
    }
}

/// The queries for the relay lists of some accounts.
pub open spec fn list_queries(authors: Seq<Seq<char>>) -> Seq<QueryContent> {
    seq![
        QueryContent {
            kind: KIND_NIP65_RELAY_LIST,
            authors,
            limit: (authors.len() * RELAY_LIST_EVENTS_PER_AUTHOR) as usize,
        },
        QueryContent {
            kind: KIND_MARMOT_INBOX_RELAY_LIST,
            authors,
            limit: (authors.len() * RELAY_LIST_EVENTS_PER_AUTHOR) as usize,
        },
    ]
}

/// The queries for the relay lists of some accounts, at most as many as one query
/// asks for.
pub fn member_list_queries(authors: Vec<String>) -> (queries: Vec<DirectoryEventQuery>)
    requires
        authors@.len() <= MEMBER_RESOLUTION_AUTHORS_PER_QUERY,
    ensures
        queries.deep_view() == list_queries(authors.deep_view()),
{
    let limit: usize = authors.len() * RELAY_LIST_EVENTS_PER_AUTHOR;
    let ghost a = authors.deep_view();
    let again = copy_list(&authors);
    let mut queries: Vec<DirectoryEventQuery> = Vec::new();
    queries.push(DirectoryEventQuery::new(KIND_NIP65_RELAY_LIST, authors, limit));
    queries.push(DirectoryEventQuery::new(KIND_MARMOT_INBOX_RELAY_LIST, again, limit));
    assert(queries.deep_view() =~= list_queries(a));
    queries
}

/// The queries for the members for whom no route is known; none where there are no
/// relays to ask.
pub open spec fn list_requests(
    app: AppContent,
    targets: Seq<TargetContent>,
    unresolved: Seq<int>,
) -> Seq<ListRequestContent> {
    if source_relays_of(app, Seq::empty()).len() == 0 {
        Seq::empty()
    } else {
        chunked(
            without_route(targets, unresolved),
            MEMBER_RESOLUTION_AUTHORS_PER_QUERY as nat,
        ).map_values(
            |indices: Seq<int>|
                ListRequestContent { indices, queries: list_queries(ids_at(targets, indices)) },
        )
    }
}

/// The relay lists of a member after relays answered for it.
pub open spec fn answered_lists(
    target: TargetContent,
    records: Seq<EventRecordContent>,
    asked: Seq<Seq<char>>,
    freshness: DirectoryFreshness,
) -> RelayListStatusContent {
    refreshed(
        with_starting_relays(
            filled(
                relay_list_status(
                    target.account_id_hex,
                    fresh_lists(target.account_id_hex, records, freshness),
                ),
                target.relay_lists,
                has_fresh_kind(records, KIND_NIP65_RELAY_LIST, freshness),
                has_fresh_kind(records, KIND_MARMOT_INBOX_RELAY_LIST, freshness),
            ),
            asked,
        ),
    )
}

/// Whether a fresh event of a kind is among records.
pub open spec fn has_fresh_kind(
    records: Seq<EventRecordContent>,
    kind: u64,
    freshness: DirectoryFreshness,
) -> bool {
    exists|i: int|
        0 <= i < records.len() && (#[trigger] records[i]).event.kind == kind && freshness.fresh(
            records[i],
        )
}

fn finds_fresh_kind(records: &Vec<RelayEventRecord>, kind: u64, freshness: DirectoryFreshness)
    -> (found: bool)
    ensures
        found == has_fresh_kind(records.deep_view(), kind, freshness),
{
    let ghost all = records.deep_view();
    let mut i: usize = 0;
    while i < records.len()
        invariant
            i <= records@.len(),
            all == records.deep_view(),
            forall|j: int|
                0 <= j < i ==> !((#[trigger] all[j]).event.kind == kind && freshness.fresh(all[j])),
        decreases records.len() - i,
    {
        assert(all[i as int] == records@[i as int].deep_view());
        if records[i].event.kind == kind && freshness.accepts(&records[i]) {
            return true;
        }
        i += 1;
    }
    false
}

/// The records of one author.
pub open spec fn by_author(records: Seq<EventRecordContent>, author: Seq<char>) -> Seq<
    EventRecordContent,
> {
    records.filter(|r: EventRecordContent| r.event.pubkey == author)
}

fn select_author(records: &Vec<RelayEventRecord>, author: &String) -> (out: Vec<RelayEventRecord>)
    ensures
        out.deep_view() == by_author(records.deep_view(), author@),
{
    let ghost all = records.deep_view();
    let ghost keep = |r: EventRecordContent| r.event.pubkey == author@;
    let mut out: Vec<RelayEventRecord> = Vec::new();
    let mut i: usize = 0;
    proof {
        reveal(Seq::filter);
        assert(all.take(0).filter(keep) =~= Seq::<EventRecordContent>::empty());
        assert(out.deep_view() =~= Seq::<EventRecordContent>::empty());
    }
    while i < records.len()
        invariant
            i <= records@.len(),
            all == records.deep_view(),
            keep == (|r: EventRecordContent| r.event.pubkey == author@),
            out.deep_view() == all.take(i as int).filter(keep),
        decreases records.len() - i,
    {
        proof {
            assert(all.take(i + 1).drop_last() =~= all.take(i as int));
            assert(all.take(i + 1).last() == records@[i as int].deep_view());
            reveal(Seq::filter);
        }
        if records[i].event.pubkey.same(author) {
            let ghost before = out.deep_view();
            out.push(records[i].duplicate());
            assert(out.deep_view() =~= before.push(records@[i as int].deep_view()));
        }
        i += 1;
    }
    assert(all.take(all.len() as int) =~= all);
    assert(out.deep_view() == by_author(all, author@));
    out
}

/// The targets after relays answered a batch of them.
pub open spec fn with_answered_lists(
    targets: Seq<TargetContent>,
    indices: Seq<int>,
    records: Seq<EventRecordContent>,
    asked: Seq<Seq<char>>,
    freshness: DirectoryFreshness,
) -> Seq<TargetContent>
    decreases indices.len(),
{
    if indices.len() == 0 {
        targets
    } else {
        let before = with_answered_lists(
            targets,
            indices.drop_last(),
            records,
            asked,
            freshness,
        );
        let i = indices.last();
        before.update(
            i,
            TargetContent {
                relay_lists: answered_lists(
                    before[i],
                    by_author(records, before[i].account_id_hex),
                    asked,
                    freshness,
                ),
                ..before[i]
            },
        )
    }
}

fn member_lists(
    target: &MemberTarget,
    records: Vec<RelayEventRecord>,
    asked: &Vec<String>,
    freshness: DirectoryFreshness,
) -> (lists: AccountRelayListStatus)
    ensures
        lists.deep_view() == answered_lists(
            target.deep_view(),
            records.deep_view(),
            asked.deep_view(),
            freshness,
        ),
{
    let nip65 = finds_fresh_kind(&records, KIND_NIP65_RELAY_LIST, freshness);
    let inbox = finds_fresh_kind(&records, KIND_MARMOT_INBOX_RELAY_LIST, freshness);
    let mut status = fresh_relay_list_status_from_records(
        target.account_id_hex.as_str(),
        records,
        freshness,
    ).value;
    fill_relay_lists(&mut status, &target.relay_lists, nip65, inbox);
    if status.bootstrap_relays.len() == 0 {
        status.bootstrap_relays = copy_list(asked);
    }
    status.refresh();
    status
}

/// Gives a member the relay lists that relays answered with for it alone.
pub fn apply_member_lists(
    targets: &mut Vec<MemberTarget>,
    index: usize,
    records: Vec<RelayEventRecord>,
    asked: &Vec<String>,
    freshness: DirectoryFreshness,
)
    requires
        index < old(targets)@.len(),
    ensures
        final(targets).deep_view() == old(targets).deep_view().update(
            index as int,
            TargetContent {
                relay_lists: answered_lists(
                    old(targets).deep_view()[index as int],
                    records.deep_view(),
                    asked.deep_view(),
                    freshness,
                ),
                ..old(targets).deep_view()[index as int]
            },
        ),
{
    let ghost before = targets.deep_view();
    let mut target = targets.remove(index);
    assert(before[index as int] == target.deep_view());
    target.relay_lists = member_lists(&target, records, asked, freshness);
    targets.insert(index, target);
    assert(targets.deep_view() =~= before.update(index as int, target.deep_view()));
}

/// Gives each member of a batch the relay lists that relays answered with for it.
pub fn apply_batch_lists(
    targets: &mut Vec<MemberTarget>,
    indices: &Vec<usize>,
    records: &Vec<RelayEventRecord>,
    asked: &Vec<String>,
    freshness: DirectoryFreshness,
)
    requires
        indices_below(indices@, old(targets)@.len()),
    ensures
        final(targets).deep_view() == with_answered_lists(
            old(targets).deep_view(),
            positions(indices@),
            records.deep_view(),
            asked.deep_view(),
            freshness,
        ),
        final(targets)@.len() == old(targets)@.len(),
{
    let ghost start = targets.deep_view();
    let ghost all = positions(indices@);
    let mut k: usize = 0;
    assert(all.take(0) =~= Seq::<int>::empty());
    while k < indices.len()
        invariant
            k <= indices@.len(),
            all == positions(indices@),
            targets@.len() == start.len(),
            indices_below(indices@, start.len()),
            targets.deep_view() == with_answered_lists(
                start,
                all.take(k as int),
                records.deep_view(),
                asked.deep_view(),
                freshness,
            ),
        decreases indices.len() - k,
    {
        assert(all.take(k + 1).drop_last() =~= all.take(k as int));
        assert(all.take(k + 1).last() == indices@[k as int] as int);
        let index = indices[k];
        assert(targets.deep_view()[index as int] == targets@[index as int].deep_view());
        let own = select_author(records, &targets[index].account_id_hex);
        apply_member_lists(targets, index, own, asked, freshness);
        assert(targets.deep_view().len() == start.len());
        k += 1;
    }
    assert(all.take(all.len() as int) =~= all);
}

impl MarmotApp {
    /// Plans the queries for the members for whom no route is known.
    pub fn plan_member_list_requests(&self, targets: &Vec<MemberTarget>, unresolved: &Vec<usize>)
        -> (requests: Vec<RelayListRequest>)
        requires
            indices_below(unresolved@, targets@.len()),
        ensures
            requests.deep_view() == list_requests(
                self@,
                targets.deep_view(),
                positions(unresolved@),
            ),
            forall|r: int|
                0 <= r < requests@.len() ==> indices_below(
                    (#[trigger] requests@[r]).indices@,
                    targets@.len(),
                ),
    {
        let none: Vec<String> = Vec::new();
        assert(none.deep_view() =~= Seq::<Seq<char>>::empty());
        let mut requests: Vec<RelayListRequest> = Vec::new();
        assert(requests.deep_view() =~= Seq::<ListRequestContent>::empty());
        if self.directory_source_relays(&none).len() == 0 {
            return requests;
        }
        let indices = find_without_route(targets, unresolved);
        let chunks = cut_into_chunks(&indices, Ghost(targets@.len()));
        let ghost t = targets.deep_view();
        let ghost cs = chunks_of(chunks@);
        let ghost make = |indices: Seq<int>|
            ListRequestContent { indices, queries: list_queries(ids_at(t, indices)) };
        let mut c: usize = 0;
        while c < chunks.len()
            invariant
                c <= chunks@.len(),
                t == targets.deep_view(),
                cs == chunks_of(chunks@),
                make == (|indices: Seq<int>|
                    ListRequestContent { indices, queries: list_queries(ids_at(t, indices)) }),
                forall|k: int|
                    0 <= k < chunks@.len() ==> indices_below(
                        (#[trigger] chunks@[k]).indices@,
                        targets@.len(),
                    ) && chunks@[k].indices@.len() <= MEMBER_RESOLUTION_AUTHORS_PER_QUERY,
                requests@.len() == c,
                forall|k: int|
                    0 <= k < c ==> (#[trigger] requests@[k]).deep_view() == make(cs[k]),
                forall|r: int|
                    0 <= r < requests@.len() ==> indices_below(
                        (#[trigger] requests@[r]).indices@,
                        targets@.len(),
                    ),
            decreases chunks.len() - c,
        {
            let part = copy_indices(&chunks[c].indices);
            let authors = collect_ids(targets, &part);
            let request = RelayListRequest {
                queries: member_list_queries(authors),
                indices: part,
            };
            assert(cs[c as int] == positions(chunks@[c as int].indices@));
            assert(request.deep_view() == make(cs[c as int]));
            requests.push(request);
            c += 1;
        }
        assert(requests.deep_view() =~= cs.map_values(make));
        requests
    }
}

pub(crate) fn copy_indices(indices: &Vec<usize>) -> (copy: Vec<usize>)
    ensures
        copy@ == indices@,
{
    let mut copy: Vec<usize> = Vec::new();
    let mut i: usize = 0;
    while i < indices.len()
        invariant
            i <= indices@.len(),
            copy@ == indices@.take(i as int),
        decreases indices.len() - i,
    {
        copy.push(indices[i]);
        assert(indices@.take(i + 1) =~= indices@.take(i as int).push(indices@[i as int]));
        i += 1;
    }
    assert(indices@.take(indices@.len() as int) =~= indices@);
    copy
}

} // verus!
