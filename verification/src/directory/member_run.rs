//! Resolving the key packages of a roster from its names to its packages: what is
//! known is reused, routes are looked up where none is known, the rest is fetched in
//! batches, and a member that its batch did not serve is fetched on its own.

use crate::collections::copy_list;
use crate::directory::app_entry::source_relays_of;
use crate::directory::app_state::{AppContent, MarmotApp};
use crate::directory::key_packages::{
    KeyPackageContent, KeyPackageEventRecord, PackageRecordContent,
};
use crate::directory::members::{
    targets_of, DecodedContent, KeyPackageDecodings, MemberKeyPackageResolutionStats,
    MemberResolutionPurpose, MemberTarget, TargetContent,
};
use crate::directory::members_fetch::{
    answered_lists, apply_batch_lists, apply_member_lists, ids_at, indices_below, list_queries,
    list_requests, member_list_queries, outcome_of, outcomes_of, positions, reused_all,
    with_answered_lists, ListRequestContent, RelayListRequest,
    MEMBER_RESOLUTION_AUTHORS_PER_QUERY,
};
use crate::directory::members_packages::{
    all_requests, alone, ascending_positions, assemble_member_key_packages, assembled,
    batch_served, fetch_relays, group_position, group_requests, grouped_all,
    lemma_group_position, open_members, order_positions, package_query, requests_below,
    still_open, FetchProgress, GroupContent, KeyPackageRequest, Outcomes,
    PackageRequestContent, ResolvedMemberKeyPackages,
};
use crate::directory::records::{DirectoryFreshness, EventRecordContent, RelayEventRecord};
use crate::error::{AppError, ErrorContent};
use crate::order::{ascending_set, lemma_ascending_set_exists};
use crate::text::join;
use vstd::multiset::Multiset;
use vstd::prelude::*;
use vstd::seq_lib::{group_to_multiset_ensures, lemma_multiset_commutative, to_multiset_build};

verus! {

/// The resolution of a roster.
#[derive(Debug)]
pub struct MemberRun {
    requested: usize,
    purpose: MemberResolutionPurpose,
    targets: Vec<MemberTarget>,
    asked: Vec<String>,
    unresolved: Vec<usize>,
    reused: usize,
    outcomes: Outcomes,
    usable: Vec<Vec<String>>,
    fallback: Vec<usize>,
}

/// The content of a [`MemberRun`].
#[verifier::ext_equal]
pub struct RunContent {
    pub requested: nat,
    pub purpose: MemberResolutionPurpose,
    pub targets: Seq<TargetContent>,
    /// The relays that are asked for relay lists.
    pub asked: Seq<Seq<char>>,
    /// The members of whom nothing that is known could be reused.
    pub unresolved: Seq<int>,
    pub reused: nat,
    pub outcomes: Seq<Option<Result<KeyPackageContent, ErrorContent>>>,
    /// Which relays of each member may be used.
    pub usable: Seq<Seq<Seq<char>>>,
    /// The members that their batch did not serve.
    pub fallback: Seq<int>,
}

impl View for MemberRun {
    type V = RunContent;

    closed spec fn view(&self) -> RunContent {
        RunContent {
            requested: self.requested as nat,
            purpose: self.purpose,
            targets: self.targets.deep_view(),
            asked: self.asked.deep_view(),
            unresolved: positions(self.unresolved@),
            reused: self.reused as nat,
            outcomes: outcomes_of(self.outcomes@),
            usable: self.usable.deep_view(),
            fallback: positions(self.fallback@),
        }
    }
}

/// The resolution of a roster once what is known was reused.
pub open spec fn begun_run(
    app: AppContent,
    names: Seq<Seq<char>>,
    table: Seq<DecodedContent>,
    purpose: MemberResolutionPurpose,
    now: u64,
    now_ms: u64,
) -> (AppContent, Result<RunContent, ErrorContent>) {
    match targets_of(app, names) {
        Err(error) => (app, Err(error)),
        Ok(targets) => {
            let (progress, fault) = reused_all(app, targets, table, purpose, now, now_ms);
            match fault {
                Some(error) => (progress.app, Err(error)),
                None => (
                    progress.app,
                    Ok(
                        RunContent {
                            requested: names.len(),
                            purpose,
                            targets,
                            asked: source_relays_of(progress.app, Seq::empty()),
                            unresolved: progress.unresolved,
                            reused: progress.reused,
                            outcomes: progress.outcomes,
                            usable: Seq::new(targets.len(), |i: int| Seq::empty()),
                            fallback: Seq::empty(),
                        },
                    ),
                ),
            }
        },
    }
}

/// The resolution after relays answered a batch about relay lists. What a relay
/// refuses to answer for several members changes nothing.
pub open spec fn lists_answered(
    run: RunContent,
    indices: Seq<int>,
    answer: Result<Seq<EventRecordContent>, Seq<char>>,
    freshness: DirectoryFreshness,
) -> RunContent {
    match answer {
        Err(_) => run,
        Ok(records) => RunContent {
            targets: with_answered_lists(run.targets, indices, records, run.asked, freshness),
            ..run
        },
    }
}

/// The queries that are left after an answer about a batch: one for each of its
/// members where there was none.
pub open spec fn lists_left(
    run: RunContent,
    indices: Seq<int>,
    answer: Result<Seq<EventRecordContent>, Seq<char>>,
) -> Seq<ListRequestContent> {
    match answer {
        Ok(_) => Seq::empty(),
        Err(_) => indices.map_values(
            |i: int|
                ListRequestContent {
                    indices: seq![i],
                    queries: list_queries(seq![run.targets[i].account_id_hex]),
                },
        ),
    }
}

/// The resolution after relays answered about the relay lists of one member.
pub open spec fn list_answered_alone(
    run: RunContent,
    index: int,
    answer: Result<Seq<EventRecordContent>, Seq<char>>,
    freshness: DirectoryFreshness,
) -> RunContent {
    match answer {
        Err(error) => RunContent {
            outcomes: run.outcomes.update(
                index,
                Some(Err(ErrorContent::RelayDirectory("fetch relay lists: "@ + error))),
            ),
            ..run
        },
        Ok(records) => RunContent {
            targets: run.targets.update(
                index,
                TargetContent {
                    relay_lists: answered_lists(
                        run.targets[index],
                        records,
                        run.asked,
                        freshness,
                    ),
                    ..run.targets[index]
                },
            ),
            ..run
        },
    }
}

/// The open members by the relays they are fetched from, and the outcomes with
/// those that cannot be fetched.
pub open spec fn planned_packages(
    run: RunContent,
    app: AppContent,
    usable: Seq<Seq<Seq<char>>>,
) -> (Seq<PackageRequestContent>, RunContent) {
    let (groups, settled) = grouped_all(
        app,
        usable,
        still_open(run.unresolved, run.outcomes),
        run.outcomes,
    );
    (all_requests(run.targets, groups), RunContent { outcomes: settled, usable, ..run })
}

/// The resolution, and the directory, after relays answered a batch about key
/// packages.
pub open spec fn packages_answered(
    run: RunContent,
    app: AppContent,
    indices: Seq<int>,
    answer: Result<Seq<PackageRecordContent>, Seq<char>>,
    table: Seq<DecodedContent>,
    now: u64,
    now_ms: u64,
) -> (AppContent, RunContent) {
    match answer {
        Err(_) => (app, RunContent { fallback: run.fallback + indices, ..run }),
        Ok(records) => {
            let after = batch_served(
                FetchProgress { app, outcomes: run.outcomes, fallback: run.fallback },
                run.targets,
                indices,
                records,
                table,
                run.purpose,
                now,
                now_ms,
            );
            (
                after.app,
                RunContent { outcomes: after.outcomes, fallback: after.fallback, ..run },
            )
        },
    }
}

/// The queries for members on their own; none for one without a relay to ask.
pub open spec fn alone_requests(
    app: AppContent,
    targets: Seq<TargetContent>,
    usable: Seq<Seq<Seq<char>>>,
    indices: Seq<int>,
) -> Seq<PackageRequestContent>
    decreases indices.len(),
{
    if indices.len() == 0 {
        Seq::empty()
    } else {
        let before = alone_requests(app, targets, usable, indices.drop_last());
        let i = indices.last();
        let endpoints = fetch_relays(app, usable[i]);
        if endpoints.len() == 0 {
            before
        } else {
            before.push(
                PackageRequestContent {
                    indices: seq![i],
                    endpoints,
                    query: package_query(seq![targets[i].account_id_hex]),
                },
            )
        }
    }
}

/// The resolution, and the directory, after relays answered about the key packages
/// of one member.
pub open spec fn package_answered_alone(
    run: RunContent,
    app: AppContent,
    index: int,
    answer: Result<Seq<PackageRecordContent>, Seq<char>>,
    table: Seq<DecodedContent>,
    now: u64,
    now_ms: u64,
) -> (AppContent, RunContent) {
    let (after, package) = alone(
        app,
        run.targets[index],
        answer,
        table,
        run.purpose,
        now,
        now_ms,
    );
    (after, RunContent { outcomes: run.outcomes.update(index, Some(package)), ..run })
}

/// What relays answered.
pub open spec fn list_answer(answer: Result<Vec<RelayEventRecord>, String>) -> Result<
    Seq<EventRecordContent>,
    Seq<char>,
> {
    match answer {
        Ok(records) => Ok(records.deep_view()),
        Err(error) => Err(error@),
    }
}

/// What relays answered.
pub open spec fn package_answer(answer: Result<Vec<KeyPackageEventRecord>, String>) -> Result<
    Seq<PackageRecordContent>,
    Seq<char>,
> {
    match answer {
        Ok(records) => Ok(records.deep_view()),
        Err(error) => Err(error@),
    }
}

impl MemberRun {
    /// Whether every position is one of a member.
    pub closed spec fn wf(&self) -> bool {
        &&& self.outcomes@.len() == self.targets@.len()
        &&& self.usable@.len() == self.targets@.len()
        &&& indices_below(self.unresolved@, self.targets@.len())
        &&& indices_below(self.fallback@, self.targets@.len())
    }

    /// Begins the resolution of a roster: names that mean one account collapse, and
    /// what is known of each member is reused.
    pub fn begin(
        app: &mut MarmotApp,
        names: &Vec<String>,
        table: &KeyPackageDecodings,
        purpose: MemberResolutionPurpose,
        now: u64,
        now_ms: u64,
    ) -> (result: Result<MemberRun, AppError>)
        requires
            now <= i64::MAX,
        ensures
            ({
                let (after, run) = begun_run(
                    old(app)@,
                    names.deep_view(),
                    table@,
                    purpose,
                    now,
                    now_ms,
                );
                &&& final(app)@ == after
                &&& match (run, result) {
                    (Ok(expected), Ok(begun)) => begun@ == expected && begun.wf(),
                    (Err(expected), Err(error)) => error.deep_view() == expected,
                    _ => false,
                }
            }),
    {
        let targets = match app.member_targets(names) {
            Ok(targets) => targets,
            Err(error) => {
                return Err(error);
            },
        };
        let known = match app.reuse_member_key_packages(&targets, table, purpose, now, now_ms) {
            Ok(known) => known,
            Err(error) => {
                return Err(error);
            },
        };
        let none: Vec<String> = Vec::new();
        assert(none.deep_view() =~= Seq::<Seq<char>>::empty());
        let asked = app.directory_source_relays(&none);
        let mut usable: Vec<Vec<String>> = Vec::new();
        while usable.len() < targets.len()
            invariant
                usable@.len() <= targets@.len(),
                forall|i: int| 0 <= i < usable@.len() ==> (#[trigger] usable@[i])@.len() == 0,
            decreases targets.len() - usable.len(),
        {
            usable.push(Vec::new());
        }
        assert forall|i: int| 0 <= i < usable@.len() implies (#[trigger] usable.deep_view()[i])
            == Seq::<Seq<char>>::empty() by {
            assert(usable@[i].deep_view() =~= Seq::<Seq<char>>::empty());
        }
        let run = MemberRun {
            requested: names.len(),
            purpose,
            asked,
            unresolved: known.unresolved,
            reused: known.reused_members,
            outcomes: known.outcomes,
            usable,
            fallback: Vec::new(),
            targets,
        };
        assert(run@.usable =~= Seq::new(
            targets.deep_view().len(),
            |i: int| Seq::<Seq<char>>::empty(),
        ));
        assert(run@.fallback =~= Seq::<int>::empty());
        Ok(run)
    }

    /// The accounts of the roster, each once.
    pub fn account_ids(&self) -> (ids: Vec<String>)
        ensures
            ids.deep_view() == self@.targets.map_values(|t: TargetContent| t.account_id_hex),
    {
        let ghost make = |t: TargetContent| t.account_id_hex;
        let mut ids: Vec<String> = Vec::new();
        let mut i: usize = 0;
        while i < self.targets.len()
            invariant
                i <= self.targets@.len(),
                make == (|t: TargetContent| t.account_id_hex),
                ids@.len() == i,
                forall|j: int| 0 <= j < i ==> (#[trigger] ids@[j])@ == make(self@.targets[j]),
            decreases self.targets.len() - i,
        {
            assert(self@.targets[i as int] == self.targets@[i as int].deep_view());
            ids.push(self.targets[i].account_id_hex.clone());
            i += 1;
        }
        assert(ids.deep_view() =~= self@.targets.map_values(make));
        ids
    }

    /// The relays that are asked for relay lists.
    pub fn asked(&self) -> (asked: Vec<String>)
        ensures
            asked.deep_view() == self@.asked,
    {
        copy_list(&self.asked)
    }

    /// The queries for the relay lists of the members for whom no route is known.
    pub fn list_requests(&self, app: &MarmotApp) -> (requests: Vec<RelayListRequest>)
        requires
            self.wf(),
        ensures
            requests.deep_view() == list_requests(app@, self@.targets, self@.unresolved),
            forall|r: int|
                0 <= r < requests@.len() ==> indices_below(
                    (#[trigger] requests@[r]).indices@,
                    self@.targets.len(),
                ),
    {
        app.plan_member_list_requests(&self.targets, &self.unresolved)
    }

    /// Takes in what relays answered a query for relay lists with, and says which
    /// members to ask for one by one because they did not answer it.
    pub fn lists_answered(
        &mut self,
        indices: Vec<usize>,
        answer: Result<Vec<RelayEventRecord>, String>,
        freshness: DirectoryFreshness,
    ) -> (left: Vec<RelayListRequest>)
        requires
            old(self).wf(),
            indices_below(indices@, old(self)@.targets.len()),
        ensures
            final(self)@ == lists_answered(
                old(self)@,
                positions(indices@),
                list_answer(answer),
                freshness,
            ),
            left.deep_view() == lists_left(old(self)@, positions(indices@), list_answer(answer)),
            final(self).wf(),
            final(self)@.targets.len() == old(self)@.targets.len(),
    {
        match answer {
            Ok(records) => {
                apply_batch_lists(
                    &mut self.targets,
                    &indices,
                    &records,
                    &self.asked,
                    freshness,
                );
                let left: Vec<RelayListRequest> = Vec::new();
                assert(left.deep_view() =~= Seq::<ListRequestContent>::empty());
                left
            },
            Err(_) => self.ask_for_lists_alone(indices),
        }
    }

    fn ask_for_lists_alone(&self, indices: Vec<usize>) -> (left: Vec<RelayListRequest>)
        requires
            indices_below(indices@, self@.targets.len()),
        ensures
            left.deep_view() == positions(indices@).map_values(
                |i: int|
                    ListRequestContent {
                        indices: seq![i],
                        queries: list_queries(seq![self@.targets[i].account_id_hex]),
                    },
            ),
    {
        let ghost all = positions(indices@);
        let ghost make = |i: int|
            ListRequestContent {
                indices: seq![i],
                queries: list_queries(seq![self@.targets[i].account_id_hex]),
            };
        let mut left: Vec<RelayListRequest> = Vec::new();
        let mut k: usize = 0;
        while k < indices.len()
            invariant
                k <= indices@.len(),
                indices_below(indices@, self@.targets.len()),
                all == positions(indices@),
                make == (|i: int|
                    ListRequestContent {
                        indices: seq![i],
                        queries: list_queries(seq![self@.targets[i].account_id_hex]),
                    }),
                left@.len() == k,
                forall|j: int| 0 <= j < k ==> (#[trigger] left@[j]).deep_view() == make(all[j]),
            decreases indices.len() - k,
        {
            let index = indices[k];
            assert(self@.targets[index as int] == self.targets@[index as int].deep_view());
            let mut authors: Vec<String> = Vec::new();
            authors.push(self.targets[index].account_id_hex.clone());
            assert(authors.deep_view() =~= seq![self@.targets[index as int].account_id_hex]);
            let mut own: Vec<usize> = Vec::new();
            own.push(index);
            assert(positions(own@) =~= seq![index as int]);
            let request = RelayListRequest { indices: own, queries: member_list_queries(authors) };
            assert(request.deep_view() == make(all[k as int]));
            left.push(request);
            k += 1;
        }
        assert(left.deep_view() =~= all.map_values(make));
        left
    }

    /// Takes in what relays answered a query for the relay lists of one member with.
    /// Where they did not, the member has failed.
    pub fn list_answered_alone(
        &mut self,
        index: usize,
        answer: Result<Vec<RelayEventRecord>, String>,
        freshness: DirectoryFreshness,
    )
        requires
            old(self).wf(),
            index < old(self)@.targets.len(),
        ensures
            final(self)@ == list_answered_alone(
                old(self)@,
                index as int,
                list_answer(answer),
                freshness,
            ),
            final(self).wf(),
            final(self)@.targets.len() == old(self)@.targets.len(),
    {
        match answer {
            Ok(records) => {
                apply_member_lists(&mut self.targets, index, records, &self.asked, freshness);
                assert(self.targets.deep_view().len() == old(self).targets.deep_view().len());
            },
            Err(error) => {
                let ghost before = outcomes_of(self.outcomes@);
                let failed = Some(
                    Err(AppError::RelayDirectory(join("fetch relay lists: ", error.as_str()))),
                );
                self.outcomes.set(index, failed);
                assert(outcomes_of(self.outcomes@) =~= before.update(
                    index as int,
                    outcome_of(failed),
                ));
            },
        }
    }

    /// The relays that each member publishes its key packages to.
    pub fn member_relays(&self) -> (relays: Vec<Vec<String>>)
        ensures
            relays.deep_view() == self@.targets.map_values(
                |t: TargetContent| t.relay_lists.nip65.relays,
            ),
    {
        let ghost make = |t: TargetContent| t.relay_lists.nip65.relays;
        let mut relays: Vec<Vec<String>> = Vec::new();
        let mut i: usize = 0;
        while i < self.targets.len()
            invariant
                i <= self.targets@.len(),
                make == (|t: TargetContent| t.relay_lists.nip65.relays),
                relays@.len() == i,
                forall|j: int|
                    0 <= j < i ==> (#[trigger] relays@[j]).deep_view() == make(self@.targets[j]),
            decreases self.targets.len() - i,
        {
            assert(self@.targets[i as int] == self.targets@[i as int].deep_view());
            relays.push(copy_list(&self.targets[i].relay_lists.nip65.relays));
            i += 1;
        }
        assert(relays.deep_view() =~= self@.targets.map_values(make));
        relays
    }

    /// The queries for the key packages of the members that are still open, given
    /// which relays of each member may be used. A member without a relay has failed.
    pub fn package_requests(&mut self, app: &MarmotApp, usable: Vec<Vec<String>>) -> (requests:
        Vec<KeyPackageRequest>)
        requires
            old(self).wf(),
            usable@.len() == old(self)@.targets.len(),
        ensures
            (requests.deep_view(), final(self)@) == planned_packages(
                old(self)@,
                app@,
                usable.deep_view(),
            ),
            requests_below(requests@, final(self)@.targets.len()),
            final(self).wf(),
    {
        let open = open_members(&self.unresolved, &self.outcomes);
        let requests = app.plan_member_package_requests(
            &self.targets,
            &usable,
            &open,
            &mut self.outcomes,
        );
        self.usable = usable;
        requests
    }

    /// Takes in what relays answered a query for key packages with. A member that
    /// was not served is to be fetched on its own.
    pub fn packages_answered(
        &mut self,
        app: &mut MarmotApp,
        indices: Vec<usize>,
        answer: Result<Vec<KeyPackageEventRecord>, String>,
        table: &KeyPackageDecodings,
        now: u64,
        now_ms: u64,
    )
        requires
            old(self).wf(),
            now <= i64::MAX,
            indices_below(indices@, old(self)@.targets.len()),
        ensures
            (final(app)@, final(self)@) == packages_answered(
                old(self)@,
                old(app)@,
                positions(indices@),
                package_answer(answer),
                table@,
                now,
                now_ms,
            ),
            final(self).wf(),
            final(self)@.targets.len() == old(self)@.targets.len(),
    {
        match answer {
            Ok(records) => {
                app.serve_member_batch(
                    &self.targets,
                    &indices,
                    &records,
                    table,
                    self.purpose,
                    &mut self.outcomes,
                    &mut self.fallback,
                    now,
                    now_ms,
                );
            },
            Err(_) => {
                let ghost start = self.fallback@;
                let mut k: usize = 0;
                assert(start + indices@.take(0) =~= start);
                while k < indices.len()
                    invariant
                        k <= indices@.len(),
                        indices_below(indices@, self.targets@.len()),
                        indices_below(self.fallback@, self.targets@.len()),
                        start == old(self).fallback@,
                        self.fallback@ == start + indices@.take(k as int),
                        *self == (MemberRun { fallback: self.fallback, ..*old(self) }),
                    decreases indices.len() - k,
                {
                    self.fallback.push(indices[k]);
                    assert(start + indices@.take(k + 1) =~= (start + indices@.take(
                        k as int,
                    )).push(indices@[k as int]));
                    k += 1;
                }
                assert(indices@.take(indices@.len() as int) =~= indices@);
                assert(positions(self.fallback@) =~= positions(start) + positions(indices@));
            },
        }
    }

    /// The queries for the members that their batch did not serve, one each, in the
    /// order of the roster.
    pub fn fallback_requests(&self, app: &MarmotApp) -> (requests: Vec<KeyPackageRequest>)
        requires
            self.wf(),
        ensures
            requests.deep_view() == alone_requests(
                app@,
                self@.targets,
                self@.usable,
                ascending_positions(self@.fallback, self@.targets.len()),
            ),
            requests_below(requests@, self@.targets.len()),
    {
        let ordered = order_positions(&self.fallback, self.targets.len());
        let ghost all = positions(ordered@);
        let mut requests: Vec<KeyPackageRequest> = Vec::new();
        let mut k: usize = 0;
        assert(all.take(0) =~= Seq::<int>::empty());
        assert(requests.deep_view() =~= Seq::<PackageRequestContent>::empty());
        while k < ordered.len()
            invariant
                k <= ordered@.len(),
                self.wf(),
                all == positions(ordered@),
                indices_below(ordered@, self.targets@.len()),
                requests_below(requests@, self.targets@.len()),
                requests.deep_view() == alone_requests(
                    app@,
                    self@.targets,
                    self@.usable,
                    all.take(k as int),
                ),
            decreases ordered.len() - k,
        {
            assert(all.take(k + 1).drop_last() =~= all.take(k as int));
            assert(all.take(k + 1).last() == ordered@[k as int] as int);
            let index = ordered[k];
            assert(self@.targets[index as int] == self.targets@[index as int].deep_view());
            assert(self@.usable[index as int] == self.usable@[index as int].deep_view());
            match app.plan_member_fallback(&self.targets[index], &self.usable[index]) {
                None => {},
                Some((endpoints, query)) => {
                    let mut own: Vec<usize> = Vec::new();
                    own.push(index);
                    assert(positions(own@) =~= seq![index as int]);
                    let ghost before = requests.deep_view();
                    let ghost items = requests@;
                    let request = KeyPackageRequest { indices: own, endpoints, query };
                    requests.push(request);
                    assert(requests.deep_view() =~= before.push(request.deep_view()));
                    assert forall|r: int| 0 <= r < requests@.len() implies indices_below(
                        (#[trigger] requests@[r]).indices@,
                        self.targets@.len(),
                    ) by {
                        if r < items.len() {
                            assert(requests@[r] == items[r]);
                        }
                    }
                },
            }
            k += 1;
        }
        assert(all.take(all.len() as int) =~= all);
        requests
    }

    /// Takes in what relays answered a query for the key packages of one member
    /// with, which settles it.
    pub fn package_answered_alone(
        &mut self,
        app: &mut MarmotApp,
        index: usize,
        answer: Result<Vec<KeyPackageEventRecord>, String>,
        table: &KeyPackageDecodings,
        now: u64,
        now_ms: u64,
    )
        requires
            old(self).wf(),
            now <= i64::MAX,
            index < old(self)@.targets.len(),
        ensures
            (final(app)@, final(self)@) == package_answered_alone(
                old(self)@,
                old(app)@,
                index as int,
                package_answer(answer),
                table@,
                now,
                now_ms,
            ),
            final(self).wf(),
            final(self)@.targets.len() == old(self)@.targets.len(),
    {
        assert(self@.targets[index as int] == self.targets@[index as int].deep_view());
        let package = app.serve_member_alone(
            &self.targets[index],
            answer,
            table,
            self.purpose,
            now,
            now_ms,
        );
        let ghost before = outcomes_of(self.outcomes@);
        let settled = Some(package);
        self.outcomes.set(index, settled);
        assert(outcomes_of(self.outcomes@) =~= before.update(index as int, outcome_of(settled)));
    }

    /// Ends the resolution: the key packages of all members in the order of the
    /// roster, or the error of the first member without one.
    pub fn finish(self) -> (result: Result<ResolvedMemberKeyPackages, AppError>)
        requires
            self.wf(),
        ensures
            match (assembled(self@.targets, self@.outcomes), result) {
                (Ok(packages), Ok(resolved)) => {
                    &&& resolved.key_packages.deep_view() == packages
                    &&& resolved.stats == (MemberKeyPackageResolutionStats {
                        requested_members: self@.requested as usize,
                        unique_members: self@.targets.len() as usize,
                        reused_members: self@.reused as usize,
                        network_resolved_members: self@.unresolved.len() as usize,
                    })
                },
                (Err(expected), Err(error)) => error.deep_view() == expected,
                _ => false,
            },
    {
        let network_resolved: usize = self.unresolved.len();
        assemble_member_key_packages(
            &self.targets,
            self.outcomes,
            self.requested,
            self.reused,
            network_resolved,
        )
    }
}

/// The members that some queries ask for, in order.
pub open spec fn asked_members(requests: Seq<PackageRequestContent>) -> Seq<int>
    decreases requests.len(),
{
    if requests.len() == 0 {
        Seq::empty()
    } else {
        asked_members(requests.drop_last()) + requests.last().indices
    }
}

proof fn lemma_asked_members_join(
    left: Seq<PackageRequestContent>,
    right: Seq<PackageRequestContent>,
)
    ensures
        asked_members(left + right) == asked_members(left) + asked_members(right),
    decreases right.len(),
{
    if right.len() == 0 {
        assert(left + right =~= left);
        assert(asked_members(left) + asked_members(right) =~= asked_members(left));
    } else {
        assert((left + right).drop_last() =~= left + right.drop_last());
        lemma_asked_members_join(left, right.drop_last());
        assert(asked_members(left + right) =~= asked_members(left) + asked_members(right));
    }
}

proof fn lemma_chunks_ask_for_all(
    targets: Seq<TargetContent>,
    endpoints: Seq<Seq<char>>,
    indices: Seq<int>,
)
    ensures
        asked_members(group_requests(targets, GroupContent { endpoints, indices })) == indices,
    decreases indices.len(),
{
    let size = MEMBER_RESOLUTION_AUTHORS_PER_QUERY as nat;
    let all = group_requests(targets, GroupContent { endpoints, indices });
    if indices.len() == 0 {
        assert(all =~= Seq::<PackageRequestContent>::empty());
        assert(indices =~= Seq::<int>::empty());
    } else {
        let n = if indices.len() < size {
            indices.len() as int
        } else {
            size as int
        };
        let rest = group_requests(
            targets,
            GroupContent { endpoints, indices: indices.skip(n) },
        );
        let first = PackageRequestContent {
            indices: indices.take(n),
            endpoints,
            query: package_query(ids_at(targets, indices.take(n))),
        };
        assert(all =~= seq![first] + rest);
        lemma_asked_members_join(seq![first], rest);
        lemma_chunks_ask_for_all(targets, endpoints, indices.skip(n));
        assert(seq![first].drop_last() =~= Seq::<PackageRequestContent>::empty());
        assert(asked_members(Seq::<PackageRequestContent>::empty()) =~= Seq::<int>::empty());
        assert(asked_members(seq![first]) =~= indices.take(n)) by {
            assert(seq![first].last() == first);
        }
        assert(indices.take(n) + indices.skip(n) =~= indices);
    }
}

spec fn members_in(groups: Seq<GroupContent>) -> Multiset<int>
    decreases groups.len(),
{
    if groups.len() == 0 {
        Multiset::empty()
    } else {
        members_in(groups.drop_last()).add(groups.last().indices.to_multiset())
    }
}

proof fn lemma_requests_ask_for_groups(targets: Seq<TargetContent>, groups: Seq<GroupContent>)
    ensures
        asked_members(all_requests(targets, groups)).to_multiset() == members_in(groups),
    decreases groups.len(),
{
    broadcast use group_to_multiset_ensures;

    if groups.len() > 0 {
        let before = all_requests(targets, groups.drop_last());
        let last = groups.last();
        lemma_requests_ask_for_groups(targets, groups.drop_last());
        lemma_asked_members_join(before, group_requests(targets, last));
        lemma_chunks_ask_for_all(targets, last.endpoints, last.indices);
        assert(last == (GroupContent { endpoints: last.endpoints, indices: last.indices }));
        lemma_multiset_commutative(asked_members(before), last.indices);
    } else {
        assert(asked_members(all_requests(targets, groups)).to_multiset() =~= members_in(groups));
    }
}

proof fn lemma_member_joins_group(groups: Seq<GroupContent>, p: int, group: GroupContent, i: int)
    requires
        0 <= p < groups.len(),
        group.indices == groups[p].indices.push(i),
    ensures
        members_in(groups.update(p, group)) == members_in(groups).insert(i),
    decreases groups.len(),
{
    broadcast use group_to_multiset_ensures;

    let after = groups.update(p, group);
    if p == groups.len() - 1 {
        assert(after.drop_last() =~= groups.drop_last());
        to_multiset_build(groups[p].indices, i);
        assert(members_in(after) =~= members_in(groups).insert(i));
    } else {
        assert(after.drop_last() =~= groups.drop_last().update(p, group));
        lemma_member_joins_group(groups.drop_last(), p, group, i);
        assert(members_in(after) =~= members_in(groups).insert(i));
    }
}

proof fn lemma_member_opens_group(groups: Seq<GroupContent>, p: int, group: GroupContent, i: int)
    requires
        0 <= p <= groups.len(),
        group.indices == seq![i],
    ensures
        members_in(groups.insert(p, group)) == members_in(groups).insert(i),
    decreases groups.len(),
{
    broadcast use group_to_multiset_ensures;

    let after = groups.insert(p, group);
    to_multiset_build(Seq::<int>::empty(), i);
    assert(Seq::<int>::empty().push(i) =~= seq![i]);
    assert(Seq::<int>::empty().to_multiset() =~= Multiset::<int>::empty());
    if p == groups.len() {
        assert(after.drop_last() =~= groups);
        assert(after.last() == group);
        assert(members_in(after) =~= members_in(groups).insert(i));
    } else {
        assert(after.drop_last() =~= groups.drop_last().insert(p, group));
        assert(after.last() == groups.last());
        lemma_member_opens_group(groups.drop_last(), p, group, i);
        assert(members_in(after) =~= members_in(groups).insert(i));
    }
}

/// Whether there is a relay to fetch a member from.
pub open spec fn has_relay(app: AppContent, usable: Seq<Seq<Seq<char>>>) -> spec_fn(int) -> bool {
    |i: int| fetch_relays(app, usable[i]).len() > 0
}

proof fn lemma_groups_hold_reachable(
    app: AppContent,
    usable: Seq<Seq<Seq<char>>>,
    open: Seq<int>,
    outcomes: Seq<Option<Result<KeyPackageContent, ErrorContent>>>,
)
    ensures
        members_in(grouped_all(app, usable, open, outcomes).0) == open.filter(
            has_relay(app, usable),
        ).to_multiset(),
    decreases open.len(),
{
    broadcast use group_to_multiset_ensures;

    reveal(Seq::filter);
    let keep = has_relay(app, usable);
    if open.len() == 0 {
        assert(open.filter(keep) =~= Seq::<int>::empty());
        assert(members_in(grouped_all(app, usable, open, outcomes).0) =~= open.filter(
            keep,
        ).to_multiset());
    } else {
        let i = open.last();
        let (groups, settled) = grouped_all(app, usable, open.drop_last(), outcomes);
        let relays = fetch_relays(app, usable[i]);
        let endpoints = ascending_set(relays);
        lemma_groups_hold_reachable(app, usable, open.drop_last(), outcomes);
        lemma_ascending_set_exists(relays);
        if relays.len() > 0 {
            assert(relays.contains(relays[0]));
            assert(endpoints.contains(relays[0]));
        } else if endpoints.len() > 0 {
            assert(endpoints.contains(endpoints[0]));
            assert(relays.contains(endpoints[0]));
        }
        if endpoints.len() > 0 {
            let p = group_position(groups, endpoints, 0);
            lemma_group_position(groups, endpoints, 0);
            to_multiset_build(open.drop_last().filter(keep), i);
            if p < groups.len() && groups[p].endpoints == endpoints {
                lemma_member_joins_group(
                    groups,
                    p,
                    GroupContent { endpoints, indices: groups[p].indices.push(i) },
                    i,
                );
            } else {
                lemma_member_opens_group(
                    groups,
                    p,
                    GroupContent { endpoints, indices: seq![i] },
                    i,
                );
            }
        }
    }
}

/// Every open member with a relay to fetch it from is asked for exactly once, and
/// nobody else is asked for.
pub proof fn law_each_open_member_is_asked_once(
    run: RunContent,
    app: AppContent,
    usable: Seq<Seq<Seq<char>>>,
)
    ensures
        asked_members(planned_packages(run, app, usable).0).to_multiset() == still_open(
            run.unresolved,
            run.outcomes,
        ).filter(has_relay(app, usable)).to_multiset(),
{
    let open = still_open(run.unresolved, run.outcomes);
    let groups = grouped_all(app, usable, open, run.outcomes).0;
    lemma_requests_ask_for_groups(run.targets, groups);
    lemma_groups_hold_reachable(app, usable, open, run.outcomes);
}

/// A member that was settled without the network stays settled so: neither its
/// relay lists nor its key packages are asked for.
pub proof fn law_reused_member_is_not_asked_for(
    app: AppContent,
    names: Seq<Seq<char>>,
    table: Seq<DecodedContent>,
    purpose: MemberResolutionPurpose,
    now: u64,
    now_ms: u64,
    i: int,
)
    requires
        begun_run(app, names, table, purpose, now, now_ms).1 is Ok,
        ({
            let run = begun_run(app, names, table, purpose, now, now_ms).1->Ok_0;
            0 <= i < run.outcomes.len() && run.outcomes[i] is Some
        }),
    ensures
        !begun_run(app, names, table, purpose, now, now_ms).1->Ok_0.unresolved.contains(i),
{
    let targets = targets_of(app, names)->Ok_0;
    lemma_unresolved_is_open(app, targets, table, purpose, now, now_ms, i);
}

pub proof fn lemma_unresolved_is_open(
    app: AppContent,
    targets: Seq<TargetContent>,
    table: Seq<DecodedContent>,
    purpose: MemberResolutionPurpose,
    now: u64,
    now_ms: u64,
    i: int,
)
    requires
        reused_all(app, targets, table, purpose, now, now_ms).1 is None,
    ensures
        ({
            let progress = reused_all(app, targets, table, purpose, now, now_ms).0;
            &&& progress.outcomes.len() == targets.len()
            &&& progress.unresolved.contains(i) ==> 0 <= i < targets.len()
                && progress.outcomes[i] is None
        }),
    decreases targets.len(),
{
    if targets.len() > 0 {
        let before = reused_all(app, targets.drop_last(), table, purpose, now, now_ms).0;
        let progress = reused_all(app, targets, table, purpose, now, now_ms).0;
        lemma_unresolved_is_open(app, targets.drop_last(), table, purpose, now, now_ms, i);
        if progress.unresolved.contains(i) {
            let k = choose|k: int|
                0 <= k < progress.unresolved.len() && progress.unresolved[k] == i;
            if k < before.unresolved.len() {
                assert(before.unresolved[k] == i);
                assert(before.unresolved.contains(i));
            }
        }
    }
}

} // verus!
