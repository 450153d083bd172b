//! What holds of the queries for the key packages of a roster: which relays are
//! asked, for whom, and what becomes of a member that an answer leaves out.

use crate::directory::app_state::AppContent;
use crate::directory::key_packages::{KeyPackageContent, PackageRecordContent};
use crate::directory::member_run::{
    alone_requests, asked_members, has_relay, law_each_open_member_is_asked_once,
    planned_packages, RunContent,
};
use crate::directory::members::{DecodedContent, MemberResolutionPurpose, TargetContent};
use crate::directory::members_fetch::{
    chunked, ids_at, KEY_PACKAGE_EVENTS_PER_AUTHOR, MEMBER_RESOLUTION_AUTHORS_PER_QUERY,
};
use crate::directory::members_packages::{
    all_requests, ascending_positions, batch_served, fetch_relays, group_position,
    group_requests, grouped_all, lemma_group_position, packages_by, still_open, FetchProgress,
    GroupContent, PackageRequestContent,
};
use crate::directory::records::KIND_MARMOT_KEY_PACKAGE;
use crate::error::{ErrorContent, MissingRelayListKind};
use crate::order::{ascending_set, lemma_ascending_set_exists};
use vstd::prelude::*;
use vstd::seq_lib::group_to_multiset_ensures;

verus! {

spec fn fits(
    app: AppContent,
    usable: Seq<Seq<Seq<char>>>,
    open: Seq<int>,
    endpoints: Seq<Seq<char>>,
    indices: Seq<int>,
) -> bool {
    forall|k: int|
        0 <= k < indices.len() ==> {
            &&& open.contains(#[trigger] indices[k])
            &&& endpoints == ascending_set(fetch_relays(app, usable[indices[k]]))
        }
}

proof fn lemma_groups_fit(
    app: AppContent,
    usable: Seq<Seq<Seq<char>>>,
    open: Seq<int>,
    outcomes: Seq<Option<Result<KeyPackageContent, ErrorContent>>>,
)
    ensures
        forall|g: int|
            0 <= g < grouped_all(app, usable, open, outcomes).0.len() ==> fits(
                app,
                usable,
                open,
                (#[trigger] grouped_all(app, usable, open, outcomes).0[g]).endpoints,
                grouped_all(app, usable, open, outcomes).0[g].indices,
            ),
    decreases open.len(),
{
    if open.len() > 0 {
        let i = open.last();
        let (groups, settled) = grouped_all(app, usable, open.drop_last(), outcomes);
        let after = grouped_all(app, usable, open, outcomes).0;
        let endpoints = ascending_set(fetch_relays(app, usable[i]));
        lemma_groups_fit(app, usable, open.drop_last(), outcomes);
        assert(open[open.len() - 1] == i);
        assert forall|j: int| open.drop_last().contains(j) implies open.contains(j) by {
            let k = choose|k: int|
                0 <= k < open.drop_last().len() && open.drop_last()[k] == j;
            assert(open[k] == j);
        }
        let p = group_position(groups, endpoints, 0);
        lemma_group_position(groups, endpoints, 0);
        assert forall|g: int| 0 <= g < after.len() implies fits(
            app,
            usable,
            open,
            (#[trigger] after[g]).endpoints,
            after[g].indices,
        ) by {
            if endpoints.len() == 0 {
                assert(after[g] == groups[g]);
            } else if p < groups.len() && groups[p].endpoints == endpoints {
                assert(fits(
                    app,
                    usable,
                    open.drop_last(),
                    groups[g].endpoints,
                    groups[g].indices,
                ));
            } else if g != p {
                let h = if g < p {
                    g
                } else {
                    g - 1
                };
                assert(after[g] == groups[h]);
            }
        }
    }
}

proof fn lemma_chunks_are_parts(indices: Seq<int>, size: nat, c: int)
    requires
        0 <= c < chunked(indices, size).len(),
    ensures
        0 < chunked(indices, size)[c].len() <= size,
        forall|k: int|
            0 <= k < chunked(indices, size)[c].len() ==> indices.contains(
                #[trigger] chunked(indices, size)[c][k],
            ),
    decreases indices.len(),
{
    let chunk = chunked(indices, size)[c];
    let n = if indices.len() < size {
        indices.len() as int
    } else {
        size as int
    };
    if c > 0 {
        lemma_chunks_are_parts(indices.skip(n), size, c - 1);
        assert(chunk == chunked(indices.skip(n), size)[c - 1]);
        assert forall|k: int| 0 <= k < chunk.len() implies indices.contains(#[trigger] chunk[k]) by {
            assert(indices.skip(n).contains(chunk[k]));
            let j = choose|j: int|
                0 <= j < indices.skip(n).len() && indices.skip(n)[j] == chunk[k];
            assert(indices[j + n] == chunk[k]);
        }
    } else {
        assert forall|k: int| 0 <= k < chunk.len() implies indices.contains(#[trigger] chunk[k]) by {
            assert(indices[k] == chunk[k]);
        }
    }
}

spec fn asks_well(
    app: AppContent,
    targets: Seq<TargetContent>,
    usable: Seq<Seq<Seq<char>>>,
    open: Seq<int>,
    request: PackageRequestContent,
) -> bool {
    &&& fits(app, usable, open, request.endpoints, request.indices)
    &&& 0 < request.indices.len() <= MEMBER_RESOLUTION_AUTHORS_PER_QUERY
    &&& request.query.kind == KIND_MARMOT_KEY_PACKAGE
    &&& request.query.authors == ids_at(targets, request.indices)
    &&& request.query.limit == request.indices.len() * KEY_PACKAGE_EVENTS_PER_AUTHOR
}

proof fn lemma_requests_ask_well(
    app: AppContent,
    targets: Seq<TargetContent>,
    usable: Seq<Seq<Seq<char>>>,
    open: Seq<int>,
    groups: Seq<GroupContent>,
)
    requires
        forall|g: int|
            0 <= g < groups.len() ==> fits(
                app,
                usable,
                open,
                (#[trigger] groups[g]).endpoints,
                groups[g].indices,
            ),
    ensures
        forall|r: int|
            0 <= r < all_requests(targets, groups).len() ==> asks_well(
                app,
                targets,
                usable,
                open,
                #[trigger] all_requests(targets, groups)[r],
            ),
    decreases groups.len(),
{
    if groups.len() > 0 {
        let all = all_requests(targets, groups);
        let before = all_requests(targets, groups.drop_last());
        let group = groups.last();
        let own = group_requests(targets, group);
        assert forall|g: int| 0 <= g < groups.drop_last().len() implies fits(
            app,
            usable,
            open,
            (#[trigger] groups.drop_last()[g]).endpoints,
            groups.drop_last()[g].indices,
        ) by {
            assert(groups.drop_last()[g] == groups[g]);
        }
        lemma_requests_ask_well(app, targets, usable, open, groups.drop_last());
        assert forall|r: int| 0 <= r < all.len() implies asks_well(
            app,
            targets,
            usable,
            open,
            #[trigger] all[r],
        ) by {
            if r < before.len() {
                assert(all[r] == before[r]);
            } else {
                let c = r - before.len();
                let size = MEMBER_RESOLUTION_AUTHORS_PER_QUERY as nat;
                assert(all[r] == own[c]);
                lemma_chunks_are_parts(group.indices, size, c);
                let chunk = chunked(group.indices, size)[c];
                assert(own[c].indices == chunk);
                assert(group == groups[groups.len() - 1]);
                assert forall|k: int| 0 <= k < chunk.len() implies open.contains(
                    #[trigger] chunk[k],
                ) && group.endpoints == ascending_set(fetch_relays(app, usable[chunk[k]])) by {
                    assert(group.indices.contains(chunk[k]));
                }
                assert(chunk.len() * KEY_PACKAGE_EVENTS_PER_AUTHOR <= usize::MAX);
            }
        }
    }
}

/// A member that has relays which may be used is asked for at all of these and at
/// no other; one that has none is asked for at the directory's relays, or else at
/// the client's own. Every query names the accounts of its members, each member is
/// open, and no relay is asked twice.
pub proof fn law_members_are_asked_for_at_all_their_relays(
    run: RunContent,
    app: AppContent,
    usable: Seq<Seq<Seq<char>>>,
    r: int,
    k: int,
)
    requires
        0 <= r < planned_packages(run, app, usable).0.len(),
        0 <= k < planned_packages(run, app, usable).0[r].indices.len(),
    ensures
        ({
            let request = planned_packages(run, app, usable).0[r];
            let i = request.indices[k];
            &&& run.unresolved.contains(i) && run.outcomes[i] is None
            &&& usable[i].len() > 0 ==> forall|relay: Seq<char>| #[trigger]
                request.endpoints.contains(relay) <==> usable[i].contains(relay)
            &&& usable[i].len() == 0 && app.config.directory_relay_urls.len() > 0 ==> forall|
                relay: Seq<char>,
            | #[trigger]
                request.endpoints.contains(relay) <==> app.config.directory_relay_urls.contains(
                    relay,
                )
            &&& usable[i].len() == 0 && app.config.directory_relay_urls.len() == 0 ==> forall|
                relay: Seq<char>,
            | #[trigger]
                request.endpoints.contains(relay) <==> app.config.relay_urls.contains(relay)
            &&& request.endpoints.no_duplicates()
            &&& request.query.kind == KIND_MARMOT_KEY_PACKAGE
            &&& request.query.authors.len() == request.indices.len()
            &&& request.query.authors[k] == run.targets[i].account_id_hex
            &&& request.query.limit == request.indices.len() * KEY_PACKAGE_EVENTS_PER_AUTHOR
            &&& request.indices.len() <= MEMBER_RESOLUTION_AUTHORS_PER_QUERY
        }),
{
    let open = still_open(run.unresolved, run.outcomes);
    let groups = grouped_all(app, usable, open, run.outcomes).0;
    lemma_groups_fit(app, usable, open, run.outcomes);
    lemma_requests_ask_well(app, run.targets, usable, open, groups);
    let request = planned_packages(run, app, usable).0[r];
    assert(asks_well(app, run.targets, usable, open, request));
    let i = request.indices[k];
    lemma_ascending_set_exists(fetch_relays(app, usable[i]));
    lemma_still_open(run.unresolved, run.outcomes, i);
}

proof fn lemma_still_open(
    unresolved: Seq<int>,
    outcomes: Seq<Option<Result<KeyPackageContent, ErrorContent>>>,
    i: int,
)
    ensures
        still_open(unresolved, outcomes).contains(i) <==> unresolved.contains(i)
            && outcomes[i] is None,
    decreases unresolved.len(),
{
    reveal(Seq::filter);
    if unresolved.len() > 0 {
        let rest = unresolved.drop_last();
        let before = still_open(rest, outcomes);
        let all = still_open(unresolved, outcomes);
        lemma_still_open(rest, outcomes, i);
        assert(unresolved =~= rest.push(unresolved.last()));
        broadcast use vstd::seq_lib::group_seq_properties;

    }
}

proof fn lemma_asked_member_is_named(requests: Seq<PackageRequestContent>, i: int)
    requires
        asked_members(requests).contains(i),
    ensures
        exists|r: int|
            0 <= r < requests.len() && (#[trigger] requests[r]).indices.contains(i),
    decreases requests.len(),
{
    let before = requests.drop_last();
    let all = asked_members(requests);
    let k = choose|k: int| 0 <= k < all.len() && all[k] == i;
    if k < asked_members(before).len() {
        assert(asked_members(before)[k] == i);
        lemma_asked_member_is_named(before, i);
        let r = choose|r: int|
            0 <= r < before.len() && (#[trigger] before[r]).indices.contains(i);
        assert(requests[r] == before[r]);
    } else {
        let last = requests[requests.len() - 1];
        assert(last.indices[k - asked_members(before).len()] == i);
    }
}

/// Every open member that has relays which may be used is named by a query.
pub proof fn law_reachable_member_is_asked_for(
    run: RunContent,
    app: AppContent,
    usable: Seq<Seq<Seq<char>>>,
    i: int,
)
    requires
        run.unresolved.contains(i),
        run.outcomes[i] is None,
        usable[i].len() > 0,
    ensures
        exists|r: int|
            0 <= r < planned_packages(run, app, usable).0.len() && (#[trigger] planned_packages(
                run,
                app,
                usable,
            ).0[r]).indices.contains(i),
{
    broadcast use group_to_multiset_ensures;

    let open = still_open(run.unresolved, run.outcomes);
    let keep = has_relay(app, usable);
    let requests = planned_packages(run, app, usable).0;
    lemma_still_open(run.unresolved, run.outcomes, i);
    let k = choose|k: int| 0 <= k < open.len() && open[k] == i;
    assert(keep(open[k]));
    open.lemma_filter_contains(keep, k);
    assert(open.filter(keep).contains(open[k]));
    law_each_open_member_is_asked_once(run, app, usable);
    assert(open.filter(keep).to_multiset().count(i) > 0);
    assert(asked_members(requests).to_multiset().count(i) > 0);
    lemma_asked_member_is_named(requests, i);
}

/// An open member with no relay to ask has failed for want of a NIP-65 list; the
/// outcome of every other member is left as it was.
pub proof fn law_only_unreachable_members_fail(
    run: RunContent,
    app: AppContent,
    usable: Seq<Seq<Seq<char>>>,
    i: int,
)
    requires
        0 <= i < run.outcomes.len(),
        forall|k: int|
            0 <= k < run.unresolved.len() ==> 0 <= #[trigger] run.unresolved[k]
                < run.outcomes.len(),
    ensures
        ({
            let after = planned_packages(run, app, usable).1;
            let unreachable = usable[i].len() == 0 && app.config.directory_relay_urls.len() == 0
                && app.config.relay_urls.len() == 0;
            &&& after.outcomes.len() == run.outcomes.len()
            &&& unreachable && run.unresolved.contains(i) && run.outcomes[i] is None
                ==> after.outcomes[i] == Some(
                Err::<KeyPackageContent, ErrorContent>(
                    ErrorContent::MissingRelayLists(seq![MissingRelayListKind::Nip65]),
                ),
            )
            &&& !unreachable || !run.unresolved.contains(i) || run.outcomes[i] is Some
                ==> after.outcomes[i] == run.outcomes[i]
        }),
{
    let open = still_open(run.unresolved, run.outcomes);
    lemma_still_open(run.unresolved, run.outcomes, i);
    assert forall|k: int| 0 <= k < open.len() implies 0 <= #[trigger] open[k]
        < run.outcomes.len() by {
        lemma_still_open(run.unresolved, run.outcomes, open[k]);
        assert(open.contains(open[k]));
    }
    lemma_settled_without_relays(app, usable, open, run.outcomes, i);
}

proof fn lemma_settled_without_relays(
    app: AppContent,
    usable: Seq<Seq<Seq<char>>>,
    open: Seq<int>,
    outcomes: Seq<Option<Result<KeyPackageContent, ErrorContent>>>,
    i: int,
)
    requires
        0 <= i < outcomes.len(),
        forall|k: int| 0 <= k < open.len() ==> 0 <= #[trigger] open[k] < outcomes.len(),
    ensures
        ({
            let after = grouped_all(app, usable, open, outcomes).1;
            &&& after.len() == outcomes.len()
            &&& after[i] == (if open.contains(i) && fetch_relays(app, usable[i]).len() == 0 {
                Some(
                    Err::<KeyPackageContent, ErrorContent>(
                        ErrorContent::MissingRelayLists(seq![MissingRelayListKind::Nip65]),
                    ),
                )
            } else {
                outcomes[i]
            })
        }),
    decreases open.len(),
{
    if open.len() > 0 {
        let rest = open.drop_last();
        let last = open.last();
        assert forall|k: int| 0 <= k < rest.len() implies 0 <= #[trigger] rest[k]
            < outcomes.len() by {
            assert(rest[k] == open[k]);
        }
        assert(0 <= open[open.len() - 1] < outcomes.len());
        lemma_settled_without_relays(app, usable, rest, outcomes, i);
        assert(open =~= rest.push(last));
        assert(open.contains(i) <==> rest.contains(i) || last == i) by {
            broadcast use vstd::seq_lib::group_seq_properties;

        }
        let relays = fetch_relays(app, usable[last]);
        let endpoints = ascending_set(relays);
        lemma_ascending_set_exists(relays);
        if relays.len() > 0 {
            assert(relays.contains(relays[0]));
            assert(endpoints.contains(relays[0]));
        } else if endpoints.len() > 0 {
            assert(endpoints.contains(endpoints[0]));
            assert(relays.contains(endpoints[0]));
        }
        let before = grouped_all(app, usable, rest, outcomes).1;
        let after = grouped_all(app, usable, open, outcomes).1;
        if endpoints.len() == 0 {
            assert(after == before.update(
                last,
                Some(
                    Err::<KeyPackageContent, ErrorContent>(
                        ErrorContent::MissingRelayLists(seq![MissingRelayListKind::Nip65]),
                    ),
                ),
            ));
        } else {
            assert(after == before);
        }
    }
}

/// A member that is fetched on its own is asked for alone, at all of its relays
/// that may be used and at no other; where it has none, at the directory's relays,
/// or else at the client's own. It is left out only where there is no relay at all.
pub proof fn law_member_alone_is_asked_for_at_all_its_relays(
    app: AppContent,
    targets: Seq<TargetContent>,
    usable: Seq<Seq<Seq<char>>>,
    indices: Seq<int>,
)
    ensures
        forall|r: int|
            0 <= r < alone_requests(app, targets, usable, indices).len() ==> {
                let request = #[trigger] alone_requests(app, targets, usable, indices)[r];
                let i = request.indices[0];
                &&& request.indices.len() == 1 && indices.contains(i)
                &&& request.query.kind == KIND_MARMOT_KEY_PACKAGE
                &&& request.query.authors == seq![targets[i].account_id_hex]
                &&& request.query.limit == KEY_PACKAGE_EVENTS_PER_AUTHOR
                &&& usable[i].len() > 0 ==> request.endpoints == usable[i]
                &&& usable[i].len() == 0 && app.config.directory_relay_urls.len() > 0
                    ==> request.endpoints == app.config.directory_relay_urls
                &&& usable[i].len() == 0 && app.config.directory_relay_urls.len() == 0
                    ==> request.endpoints == app.config.relay_urls
            },
        forall|i: int| #[trigger]
            indices.contains(i) && (usable[i].len() > 0 || app.config.directory_relay_urls.len() > 0
                || app.config.relay_urls.len() > 0) ==> exists|r: int|
                0 <= r < alone_requests(app, targets, usable, indices).len() && (
                #[trigger] alone_requests(app, targets, usable, indices)[r]).indices == seq![i],
    decreases indices.len(),
{
    if indices.len() > 0 {
        let rest = indices.drop_last();
        let last = indices.last();
        let before = alone_requests(app, targets, usable, rest);
        let all = alone_requests(app, targets, usable, indices);
        law_member_alone_is_asked_for_at_all_its_relays(app, targets, usable, rest);
        assert(indices[indices.len() - 1] == last);
        assert forall|j: int| rest.contains(j) implies indices.contains(j) by {
            let k = choose|k: int| 0 <= k < rest.len() && rest[k] == j;
            assert(indices[k] == j);
        }
        assert forall|r: int| 0 <= r < before.len() implies all[r] == #[trigger] before[r] by {}
        assert forall|r: int| 0 <= r < all.len() implies ({
            let request = #[trigger] all[r];
            let i = request.indices[0];
            &&& request.indices.len() == 1 && indices.contains(i)
            &&& request.query.kind == KIND_MARMOT_KEY_PACKAGE
            &&& request.query.authors == seq![targets[i].account_id_hex]
            &&& request.query.limit == KEY_PACKAGE_EVENTS_PER_AUTHOR
            &&& usable[i].len() > 0 ==> request.endpoints == usable[i]
            &&& usable[i].len() == 0 && app.config.directory_relay_urls.len() > 0
                ==> request.endpoints == app.config.directory_relay_urls
            &&& usable[i].len() == 0 && app.config.directory_relay_urls.len() == 0
                ==> request.endpoints == app.config.relay_urls
        }) by {
            if r < before.len() {
                assert(all[r] == before[r]);
            }
        }
        assert forall|i: int| #[trigger]
            indices.contains(i) && (usable[i].len() > 0 || app.config.directory_relay_urls.len() > 0
                || app.config.relay_urls.len() > 0) implies exists|r: int|
            0 <= r < all.len() && (#[trigger] all[r]).indices == seq![i] by {
            let k = choose|k: int| 0 <= k < indices.len() && indices[k] == i;
            if k < rest.len() {
                assert(rest[k] == i);
                assert(rest.contains(i));
                let r = choose|r: int|
                    0 <= r < before.len() && (#[trigger] before[r]).indices == seq![i];
                assert(all[r] == before[r]);
                assert(all[r].indices == seq![i]);
            } else {
                assert(i == last);
                assert(all[all.len() - 1].indices == seq![i]);
            }
        }
    }
}

/// Of an answer, exactly the events that a member published count for it.
pub proof fn law_only_own_packages_count(
    records: Seq<PackageRecordContent>,
    author: Seq<char>,
    record: PackageRecordContent,
)
    ensures
        packages_by(records, author).contains(record) <==> records.contains(record)
            && record.record.event.pubkey == author,
{
    let keep = |r: PackageRecordContent| r.record.event.pubkey == author;
    let own = packages_by(records, author);
    assert(own == records.filter(keep));
    if records.contains(record) && record.record.event.pubkey == author {
        let k = choose|k: int| 0 <= k < records.len() && records[k] == record;
        assert(keep(records[k]));
        records.lemma_filter_contains(keep, k);
    }
    if own.contains(record) {
        let k = choose|k: int| 0 <= k < own.len() && own[k] == record;
        records.lemma_filter_pred(keep, k);
        records.lemma_filter_contains_rev(keep, record);
    }
}

/// An answered batch either settles a member that it asked for or leaves it to be
/// fetched on its own. It settles nobody else.
pub proof fn law_batch_settles_or_defers_its_members(
    progress: FetchProgress,
    targets: Seq<TargetContent>,
    indices: Seq<int>,
    records: Seq<PackageRecordContent>,
    table: Seq<DecodedContent>,
    purpose: MemberResolutionPurpose,
    now: u64,
    now_ms: u64,
)
    requires
        forall|k: int|
            0 <= k < indices.len() ==> 0 <= #[trigger] indices[k] < progress.outcomes.len(),
    ensures
        ({
            let after = batch_served(
                progress,
                targets,
                indices,
                records,
                table,
                purpose,
                now,
                now_ms,
            );
            &&& after.outcomes.len() == progress.outcomes.len()
            &&& forall|i: int|
                0 <= i < progress.outcomes.len() && !indices.contains(i)
                    ==> #[trigger] after.outcomes[i] == progress.outcomes[i]
            &&& forall|i: int|
                0 <= i < progress.outcomes.len() ==> #[trigger] after.outcomes[i]
                    == progress.outcomes[i] || after.outcomes[i] is Some
            &&& forall|i: int| #[trigger]
                indices.contains(i) ==> after.outcomes[i] is Some || after.fallback.contains(i)
            &&& forall|i: int| #[trigger]
                after.fallback.contains(i) ==> progress.fallback.contains(i) || indices.contains(i)
            &&& forall|i: int| #[trigger]
                progress.fallback.contains(i) ==> after.fallback.contains(i)
        }),
    decreases indices.len(),
{
    if indices.len() > 0 {
        let rest = indices.drop_last();
        let last = indices.last();
        let before = batch_served(progress, targets, rest, records, table, purpose, now, now_ms);
        let after = batch_served(progress, targets, indices, records, table, purpose, now, now_ms);
        assert(indices[indices.len() - 1] == last);
        assert forall|k: int| 0 <= k < rest.len() implies 0 <= #[trigger] rest[k]
            < progress.outcomes.len() by {
            assert(rest[k] == indices[k]);
        }
        law_batch_settles_or_defers_its_members(
            progress,
            targets,
            rest,
            records,
            table,
            purpose,
            now,
            now_ms,
        );
        assert(indices =~= rest.push(last));
        assert forall|i: int| #[trigger] indices.contains(i) <==> rest.contains(i) || i == last by {
            broadcast use vstd::seq_lib::group_seq_properties;

        }
        assert(before.fallback == after.fallback || after.fallback == before.fallback.push(last));
        assert forall|i: int| #[trigger]
            before.fallback.push(last).contains(i) <==> before.fallback.contains(i) || i == last by {
            broadcast use vstd::seq_lib::group_seq_properties;

        }
        assert forall|i: int| #[trigger] indices.contains(i) implies after.outcomes[i] is Some
            || after.fallback.contains(i) by {
            if i != last {
                assert(rest.contains(i));
                assert(0 <= i < progress.outcomes.len()) by {
                    let k = choose|k: int| 0 <= k < rest.len() && rest[k] == i;
                    assert(0 <= rest[k] < progress.outcomes.len());
                }
                assert(before.outcomes[i] is Some || before.fallback.contains(i));
            }
        }
        assert forall|i: int|
            0 <= i < progress.outcomes.len() && !indices.contains(i) implies #[trigger] after.outcomes[i]
            == progress.outcomes[i] by {
            assert(before.outcomes[i] == progress.outcomes[i]);
        }
        assert forall|i: int| 0 <= i < progress.outcomes.len() implies #[trigger] after.outcomes[i]
            == progress.outcomes[i] || after.outcomes[i] is Some by {
            assert(before.outcomes[i] == progress.outcomes[i] || before.outcomes[i] is Some);
        }
    }
}

/// Positions are put in ascending order, each named one once and no other.
pub proof fn law_positions_are_ordered(indices: Seq<int>, bound: nat)
    ensures
        ({
            let ordered = ascending_positions(indices, bound);
            &&& forall|i: int, j: int|
                0 <= i < j < ordered.len() ==> #[trigger] ordered[i] < #[trigger] ordered[j]
            &&& forall|i: int| #[trigger]
                ordered.contains(i) <==> indices.contains(i) && 0 <= i < bound
        }),
    decreases bound,
{
    if bound > 0 {
        let below = (bound - 1) as nat;
        let before = ascending_positions(indices, below);
        let ordered = ascending_positions(indices, bound);
        law_positions_are_ordered(indices, below);
        assert forall|k: int| 0 <= k < before.len() implies 0 <= #[trigger] before[k] < below by {
            assert(before.contains(before[k]));
        }
        assert forall|i: int| #[trigger] ordered.contains(i) <==> indices.contains(i) && 0 <= i
            < bound by {
            broadcast use vstd::seq_lib::group_seq_properties;

            assert(before.contains(i) <==> indices.contains(i) && 0 <= i < below);
        }
    }
}

} // verus!
