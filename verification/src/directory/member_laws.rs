//! What holds of the resolution of a roster over all its steps: whose key package is
//! whose, and how the members are counted.

use crate::directory::app_entry::{entry_named, lemma_cached_entry_keyed, Gate};
use crate::directory::app_fetch::{offered_package, unretired};
use crate::directory::app_ingest::freshness_at;
use crate::directory::app_kept::law_remembered_package_keeps_the_directory;
use crate::directory::app_laws::well_kept;
use crate::directory::app_state::AppContent;
use crate::directory::entry::EntryContent;
use crate::directory::key_packages::{
    fresh_packages, law_latest_package_is_current, package_record_lt, FetchedContent,
    KeyPackageContent, PackageRecordContent, ProtocolProfile,
};
use crate::directory::member_cache::{kept_at, kept_package, PrewarmContent};
use crate::directory::member_run::{
    begun_run, lemma_unresolved_is_open, list_answered_alone, lists_answered,
    package_answered_alone, packages_answered, planned_packages, RunContent,
};
use crate::directory::members::{
    accepted, decoded, is_target, member_id, reuse_of, target_entry, targets_of, DecodedContent,
    MemberResolutionPurpose, ReuseContent, TargetContent,
};
use crate::directory::members_fetch::{reused_all, with_answered_lists};
use crate::directory::members_packages::{
    assembled, batch_served, entry_decoding, grouped_all, law_resolved_roster_is_complete,
    packages_by, served, still_open, FetchProgress,
};
use crate::directory::records::{DirectoryFreshness, EventRecordContent};
use crate::error::ErrorContent;
use crate::order::sorted_by;
use crate::text::public_key_hex;
use vstd::prelude::*;

verus! {

/// Whether a key package was decoded and is a current one of an identity.
pub open spec fn carries(
    table: Seq<DecodedContent>,
    package: KeyPackageContent,
    id: Seq<char>,
) -> bool {
    &&& decoded(table, package.bytes) is Ok
    &&& decoded(table, package.bytes)->Ok_0.credential_identity_hex == id
    &&& decoded(table, package.bytes)->Ok_0.protocol_profile == ProtocolProfile::Current
}

/// Whether a table of decoded key packages says of each what another one does.
pub open spec fn extends(wider: Seq<DecodedContent>, table: Seq<DecodedContent>) -> bool {
    forall|bytes: Seq<u8>|
        #[trigger] decoded(table, bytes) is Ok ==> decoded(wider, bytes) == decoded(table, bytes)
}

/// Noting what decoding a key package gave changes nothing that was known before.
pub proof fn law_noting_extends_a_table(table: Seq<DecodedContent>, noted: DecodedContent)
    ensures
        extends(table.push(noted), table),
{
    assert forall|bytes: Seq<u8>| #[trigger] decoded(table, bytes) is Ok implies decoded(
        table.push(noted),
        bytes,
    ) == decoded(table, bytes) by {
        lemma_noted(table, noted, bytes);
    }
}

proof fn lemma_noted(table: Seq<DecodedContent>, noted: DecodedContent, bytes: Seq<u8>)
    requires
        decoded(table, bytes) is Ok,
    ensures
        decoded(table.push(noted), bytes) == decoded(table, bytes),
    decreases table.len(),
{
    assert(table.push(noted)[0] == table[0]);
    if table[0].bytes != bytes {
        assert(table.push(noted).drop_first() =~= table.drop_first().push(noted));
        lemma_noted(table.drop_first(), noted, bytes);
    }
}

/// Whether every key package that was found is one of the member it was found for.
pub open spec fn identified(
    targets: Seq<TargetContent>,
    outcomes: Seq<Option<Result<KeyPackageContent, ErrorContent>>>,
    table: Seq<DecodedContent>,
) -> bool {
    forall|i: int|
        0 <= i < outcomes.len() ==> (#[trigger] outcomes[i] matches Some(Ok(package)) ==> carries(
            table,
            package,
            targets[i].account_id_hex,
        ))
}

/// Whether every member was reused or is looked up, but for one that cannot be had.
pub open spec fn tallied(
    members: nat,
    outcomes: Seq<Option<Result<KeyPackageContent, ErrorContent>>>,
    reused: nat,
    unresolved: Seq<int>,
) -> bool {
    members == reused + unresolved.len() || exists|i: int|
        0 <= i < outcomes.len() && is_refused(#[trigger] outcomes[i]) && !unresolved.contains(i)
}

/// Whether a member failed to be resolved.
pub open spec fn is_refused(outcome: Option<Result<KeyPackageContent, ErrorContent>>) -> bool {
    outcome is Some && outcome->0 is Err
}

/// What holds of a resolution at any time.
pub open spec fn is_sound(run: RunContent, table: Seq<DecodedContent>) -> bool {
    &&& run.outcomes.len() == run.targets.len()
    &&& identified(run.targets, run.outcomes, table)
    &&& tallied(run.targets.len(), run.outcomes, run.reused, run.unresolved)
    &&& forall|i: int| #[trigger] run.unresolved.contains(i) ==> 0 <= i < run.targets.len()
    &&& forall|i: int| #[trigger] run.fallback.contains(i) ==> run.unresolved.contains(i)
}

/// Whether every member is named by a canonical identity.
pub open spec fn members_canonical(targets: Seq<TargetContent>) -> bool {
    forall|i: int|
        0 <= i < targets.len() ==> public_key_hex((#[trigger] targets[i]).account_id_hex) == Some(
            targets[i].account_id_hex,
        )
}

/// Whether every position of a query is one of a member that is looked up.
pub open spec fn asks_for_open(run: RunContent, indices: Seq<int>) -> bool {
    forall|k: int| 0 <= k < indices.len() ==> run.unresolved.contains(#[trigger] indices[k])
}

/// An accepted key package is the one that was offered, of the identity it was offered
/// for. Accepting one keeps the directory well kept.
proof fn lemma_accepted(
    app: AppContent,
    purpose: MemberResolutionPurpose,
    fetched: FetchedContent,
    table: Seq<DecodedContent>,
    now: u64,
    now_ms: u64,
)
    ensures
        accepted(app, purpose, fetched, table, now, now_ms).1 matches Ok(package) ==> carries(
            table,
            package,
            fetched.account_id_hex,
        ),
        well_kept(app) ==> well_kept(accepted(app, purpose, fetched, table, now, now_ms).0),
{
    if well_kept(app) {
        law_remembered_package_keeps_the_directory(app, fetched, None, now as i64);
    }
}

/// What is read of a canonical identity is of that identity.
proof fn lemma_entry_is_of(app: AppContent, id: Seq<char>, gate: Gate)
    requires
        well_kept(app),
        public_key_hex(id) == Some(id),
    ensures
        entry_named(app, id, gate) matches Ok(Some(entry)) ==> entry.account_id_hex == id,
{
    assert forall|i: int| 0 <= i < app.accounts.len() implies
        crate::directory::app_entry::keyed((#[trigger] app.accounts[i]).cache.users) by {
        assert(crate::directory::app_laws::users_kept(app.accounts[i].cache.users));
    }
    lemma_cached_entry_keyed(app.accounts, id);
    if app.shared.dom().contains(id) {
        assert(app.shared[id].account_id_hex == id);
    }
}

/// What is offered for a canonical identity is of that identity.
proof fn lemma_offered_is_of(
    app: AppContent,
    target: TargetContent,
    records: Seq<PackageRecordContent>,
    cached: Option<EntryContent>,
    table: Seq<DecodedContent>,
    freshness: DirectoryFreshness,
)
    requires
        cached is Some ==> cached->0.account_id_hex == target.account_id_hex,
    ensures
        offered_package(
            app,
            target.account_id_hex,
            records,
            cached,
            entry_decoding(table, cached),
            freshness,
        ) matches Ok(offered) ==> offered.account_id_hex == target.account_id_hex,
{
    let id = target.account_id_hex;
    let sorted = sorted_by(
        fresh_packages(id, unretired(app, id, records), freshness),
        package_record_lt(),
    );
    if crate::directory::key_packages::last_package(id, sorted, None) is Ok {
        law_latest_package_is_current(id, sorted, None);
    }
}

proof fn lemma_kept_package(entries: Seq<PrewarmContent>, id: Seq<char>)
    ensures
        kept_package(entries, id) matches Some(fetched) ==> fetched.account_id_hex == id,
    decreases entries.len(),
{
    if entries.len() > 0 {
        lemma_kept_package(entries.drop_first(), id);
    }
}

proof fn lemma_reuse(
    app: AppContent,
    target: TargetContent,
    table: Seq<DecodedContent>,
    purpose: MemberResolutionPurpose,
    now: u64,
    now_ms: u64,
)
    ensures
        reuse_of(app, target, table, purpose, now, now_ms).1 matches Ok(
            ReuseContent::Reused(package),
        ) ==> carries(table, package, target.account_id_hex),
        well_kept(app) ==> well_kept(reuse_of(app, target, table, purpose, now, now_ms).0),
{
    let kept = kept_at(app.prewarmed, now_ms);
    let fresh = AppContent { prewarmed: kept, ..app };
    lemma_kept_package(kept, target.account_id_hex);
    assert(well_kept(app) ==> well_kept(fresh));
    if let Some(fetched) = kept_package(kept, target.account_id_hex) {
        lemma_accepted(fresh, purpose, fetched, table, now, now_ms);
    }
}

proof fn lemma_reused_all(
    app: AppContent,
    targets: Seq<TargetContent>,
    table: Seq<DecodedContent>,
    purpose: MemberResolutionPurpose,
    now: u64,
    now_ms: u64,
)
    requires
        reused_all(app, targets, table, purpose, now, now_ms).1 is None,
    ensures
        ({
            let progress = reused_all(app, targets, table, purpose, now, now_ms).0;
            &&& progress.outcomes.len() == targets.len()
            &&& identified(targets, progress.outcomes, table)
            &&& tallied(
                targets.len(),
                progress.outcomes,
                progress.reused,
                progress.unresolved,
            )
            &&& well_kept(app) ==> well_kept(progress.app)
        }),
    decreases targets.len(),
{
    if targets.len() > 0 {
        let rest = targets.drop_last();
        let target = targets.last();
        let before = reused_all(app, rest, table, purpose, now, now_ms).0;
        let after = reused_all(app, targets, table, purpose, now, now_ms).0;
        lemma_reused_all(app, rest, table, purpose, now, now_ms);
        lemma_reuse(before.app, target, table, purpose, now, now_ms);
        assert forall|i: int| 0 <= i < after.outcomes.len() implies (
        #[trigger] after.outcomes[i] matches Some(Ok(package)) ==> carries(
            table,
            package,
            targets[i].account_id_hex,
        )) by {
            if i < rest.len() {
                assert(after.outcomes[i] == before.outcomes[i]);
                assert(rest[i] == targets[i]);
            }
        }
        let last = targets.len() - 1;
        assert(before.unresolved.contains(last) ==> false) by {
            lemma_unresolved_is_open(app, rest, table, purpose, now, now_ms, last);
        }
        if rest.len() == before.reused + before.unresolved.len() {
            if is_refused(after.outcomes[last]) {
                assert(after.unresolved == before.unresolved);
            }
        } else {
            let i = choose|i: int|
                0 <= i < before.outcomes.len() && is_refused(#[trigger] before.outcomes[i])
                    && !before.unresolved.contains(i);
            assert(after.outcomes[i] == before.outcomes[i]);
            assert(!after.unresolved.contains(i)) by {
                if after.unresolved.contains(i) {
                    let k = choose|k: int|
                        0 <= k < after.unresolved.len() && after.unresolved[k] == i;
                    assert(before.unresolved[k] == i);
                }
            }
        }
    }
}

/// A resolution begins soundly.
pub proof fn law_resolution_begins_soundly(
    app: AppContent,
    names: Seq<Seq<char>>,
    table: Seq<DecodedContent>,
    purpose: MemberResolutionPurpose,
    now: u64,
    now_ms: u64,
)
    requires
        begun_run(app, names, table, purpose, now, now_ms).1 is Ok,
    ensures
        is_sound(begun_run(app, names, table, purpose, now, now_ms).1->Ok_0, table),
        well_kept(app) ==> well_kept(begun_run(app, names, table, purpose, now, now_ms).0),
{
    let run = begun_run(app, names, table, purpose, now, now_ms).1->Ok_0;
    let targets = targets_of(app, names)->Ok_0;
    lemma_reused_all(app, targets, table, purpose, now, now_ms);
    assert forall|i: int| #[trigger] run.unresolved.contains(i) implies 0 <= i
        < run.targets.len() by {
        lemma_unresolved_is_open(app, targets, table, purpose, now, now_ms, i);
    }
}

/// What was decoded once is known for good.
proof fn lemma_wider_table(
    run: RunContent,
    table: Seq<DecodedContent>,
    wider: Seq<DecodedContent>,
)
    requires
        is_sound(run, table),
        extends(wider, table),
    ensures
        is_sound(run, wider),
{
    assert forall|i: int| 0 <= i < run.outcomes.len() implies (
    #[trigger] run.outcomes[i] matches Some(Ok(package)) ==> carries(
        wider,
        package,
        run.targets[i].account_id_hex,
    )) by {
        if let Some(Ok(package)) = run.outcomes[i] {
            assert(decoded(table, package.bytes) is Ok);
        }
    }
}

/// Whether two rosters name the same members.
pub open spec fn same_members(left: Seq<TargetContent>, right: Seq<TargetContent>) -> bool {
    &&& left.len() == right.len()
    &&& forall|i: int|
        0 <= i < left.len() ==> (#[trigger] left[i]).account_id_hex == right[i].account_id_hex
}

proof fn lemma_answered_members(
    targets: Seq<TargetContent>,
    indices: Seq<int>,
    records: Seq<EventRecordContent>,
    asked: Seq<Seq<char>>,
    freshness: DirectoryFreshness,
)
    requires
        forall|k: int| 0 <= k < indices.len() ==> 0 <= #[trigger] indices[k] < targets.len(),
    ensures
        same_members(with_answered_lists(targets, indices, records, asked, freshness), targets),
    decreases indices.len(),
{
    if indices.len() > 0 {
        let rest = indices.drop_last();
        assert forall|k: int| 0 <= k < rest.len() implies 0 <= #[trigger] rest[k]
            < targets.len() by {
            assert(rest[k] == indices[k]);
        }
        lemma_answered_members(targets, rest, records, asked, freshness);
        assert(0 <= indices[indices.len() - 1] < targets.len());
    }
}

/// An answer about relay lists leaves a resolution sound, and its members who they are.
pub proof fn law_list_answer_keeps_a_resolution_sound(
    run: RunContent,
    table: Seq<DecodedContent>,
    indices: Seq<int>,
    answer: Result<Seq<EventRecordContent>, Seq<char>>,
    freshness: DirectoryFreshness,
)
    requires
        is_sound(run, table),
        asks_for_open(run, indices),
    ensures
        is_sound(lists_answered(run, indices, answer, freshness), table),
        same_members(lists_answered(run, indices, answer, freshness).targets, run.targets),
{
    if let Ok(records) = answer {
        assert forall|k: int| 0 <= k < indices.len() implies 0 <= #[trigger] indices[k]
            < run.targets.len() by {
            assert(run.unresolved.contains(indices[k]));
        }
        lemma_answered_members(run.targets, indices, records, run.asked, freshness);
        let after = lists_answered(run, indices, answer, freshness);
        assert forall|i: int| 0 <= i < after.outcomes.len() implies (
        #[trigger] after.outcomes[i] matches Some(Ok(package)) ==> carries(
            table,
            package,
            after.targets[i].account_id_hex,
        )) by {
            assert(after.targets[i].account_id_hex == run.targets[i].account_id_hex);
            assert(after.outcomes[i] == run.outcomes[i]);
        }
    }
}

/// Settling a member that is looked up keeps the count of the members.
proof fn lemma_settled_tally(
    run: RunContent,
    index: int,
    outcome: Option<Result<KeyPackageContent, ErrorContent>>,
)
    requires
        run.outcomes.len() == run.targets.len(),
        tallied(run.targets.len(), run.outcomes, run.reused, run.unresolved),
        run.unresolved.contains(index),
        0 <= index < run.outcomes.len(),
    ensures
        tallied(
            run.targets.len(),
            run.outcomes.update(index, outcome),
            run.reused,
            run.unresolved,
        ),
{
    if run.targets.len() != run.reused + run.unresolved.len() {
        let i = choose|i: int|
            0 <= i < run.outcomes.len() && is_refused(#[trigger] run.outcomes[i])
                && !run.unresolved.contains(i);
        assert(run.outcomes.update(index, outcome)[i] == run.outcomes[i]);
    }
}

/// An answer about the relay lists of one member leaves a resolution sound.
pub proof fn law_lone_list_answer_keeps_a_resolution_sound(
    run: RunContent,
    table: Seq<DecodedContent>,
    index: int,
    answer: Result<Seq<EventRecordContent>, Seq<char>>,
    freshness: DirectoryFreshness,
)
    requires
        is_sound(run, table),
        run.unresolved.contains(index),
    ensures
        is_sound(list_answered_alone(run, index, answer, freshness), table),
        same_members(list_answered_alone(run, index, answer, freshness).targets, run.targets),
{
    let after = list_answered_alone(run, index, answer, freshness);
    lemma_settled_tally(run, index, after.outcomes[index]);
    assert(answer is Err ==> after.outcomes =~= run.outcomes.update(
        index,
        after.outcomes[index],
    ));
    assert forall|i: int| 0 <= i < after.outcomes.len() implies (
    #[trigger] after.outcomes[i] matches Some(Ok(package)) ==> carries(
        table,
        package,
        after.targets[i].account_id_hex,
    )) by {
        assert(after.targets[i].account_id_hex == run.targets[i].account_id_hex);
        if i != index {
            assert(after.outcomes[i] == run.outcomes[i]);
        } else if answer is Ok {
            assert(after.outcomes[i] == run.outcomes[i]);
        }
    }
}

proof fn lemma_grouped(
    run: RunContent,
    app: AppContent,
    usable: Seq<Seq<Seq<char>>>,
    open: Seq<int>,
    table: Seq<DecodedContent>,
)
    requires
        is_sound(run, table),
        asks_for_open(run, open),
    ensures
        ({
            let settled = grouped_all(app, usable, open, run.outcomes).1;
            is_sound(RunContent { outcomes: settled, ..run }, table)
        }),
    decreases open.len(),
{
    if open.len() > 0 {
        let rest = open.drop_last();
        assert forall|k: int| 0 <= k < rest.len() implies run.unresolved.contains(
            #[trigger] rest[k],
        ) by {
            assert(rest[k] == open[k]);
        }
        lemma_grouped(run, app, usable, rest, table);
        let before = RunContent { outcomes: grouped_all(app, usable, rest, run.outcomes).1, ..run };
        let i = open[open.len() - 1];
        let after = grouped_all(app, usable, open, run.outcomes).1;
        assert(run.unresolved.contains(i));
        if after != before.outcomes {
            lemma_settled_tally(before, i, after[i]);
            assert(after =~= before.outcomes.update(i, after[i]));
            assert forall|k: int| 0 <= k < after.len() implies (
            #[trigger] after[k] matches Some(Ok(package)) ==> carries(
                table,
                package,
                run.targets[k].account_id_hex,
            )) by {
                if k != i {
                    assert(after[k] == before.outcomes[k]);
                }
            }
        }
    }
}

/// Planning the queries for key packages leaves a resolution sound.
pub proof fn law_planning_keeps_a_resolution_sound(
    run: RunContent,
    table: Seq<DecodedContent>,
    app: AppContent,
    usable: Seq<Seq<Seq<char>>>,
)
    requires
        is_sound(run, table),
    ensures
        is_sound(planned_packages(run, app, usable).1, table),
{
    let keep = |i: int| run.outcomes[i] is None;
    let open = still_open(run.unresolved, run.outcomes);
    assert forall|k: int| 0 <= k < open.len() implies run.unresolved.contains(
        #[trigger] open[k],
    ) by {
        run.unresolved.lemma_filter_contains_rev(keep, open[k]);
    }
    lemma_grouped(run, app, usable, open, table);
}

proof fn lemma_served(
    run: RunContent,
    progress: FetchProgress,
    index: int,
    records: Seq<PackageRecordContent>,
    table: Seq<DecodedContent>,
    now: u64,
    now_ms: u64,
)
    requires
        is_sound(
            RunContent { outcomes: progress.outcomes, fallback: progress.fallback, ..run },
            table,
        ),
        members_canonical(run.targets),
        well_kept(progress.app),
        run.unresolved.contains(index),
    ensures
        ({
            let after = served(
                progress,
                run.targets[index],
                index,
                records,
                table,
                run.purpose,
                now,
                now_ms,
            );
            &&& is_sound(
                RunContent { outcomes: after.outcomes, fallback: after.fallback, ..run },
                table,
            )
            &&& well_kept(after.app)
        }),
{
    let held = RunContent { outcomes: progress.outcomes, fallback: progress.fallback, ..run };
    assert(held.unresolved.contains(index));
    let target = run.targets[index];
    let app = progress.app;
    let id = target.account_id_hex;
    assert(public_key_hex(id) == Some(id));
    let after = served(progress, target, index, records, table, run.purpose, now, now_ms);
    let cached = match target_entry(app, target) {
        Ok(entry) => entry,
        Err(_) => None,
    };
    lemma_entry_is_of(app, id, Gate::Inspect);
    lemma_entry_is_of(app, id, Gate::Given(false));
    lemma_entry_is_of(app, id, Gate::Given(true));
    lemma_offered_is_of(
        app,
        target,
        packages_by(records, id),
        cached,
        table,
        freshness_at(app, now),
    );
    match offered_package(
        app,
        id,
        packages_by(records, id),
        cached,
        entry_decoding(table, cached),
        freshness_at(app, now),
    ) {
        Err(_) => {
            assert(after.outcomes == progress.outcomes && after.app == app);
            assert(after.fallback == progress.fallback.push(index));
            assert forall|i: int| #[trigger] after.fallback.contains(i) implies
                run.unresolved.contains(i) by {
                let k = choose|k: int| 0 <= k < after.fallback.len() && after.fallback[k] == i;
                if k < progress.fallback.len() {
                    assert(progress.fallback[k] == i);
                    assert(held.fallback.contains(i));
                }
            }
        },
        Ok(offered) => {
            let fetched = FetchedContent { relay_lists: target.relay_lists, ..offered };
            lemma_accepted(app, run.purpose, fetched, table, now, now_ms);
            lemma_settled_tally(held, index, after.outcomes[index]);
            assert(after.outcomes =~= held.outcomes.update(index, after.outcomes[index]));
            assert(after.fallback == held.fallback);
            assert(well_kept(after.app));
            assert forall|i: int| 0 <= i < after.outcomes.len() implies (
            #[trigger] after.outcomes[i] matches Some(Ok(package)) ==> carries(
                table,
                package,
                run.targets[i].account_id_hex,
            )) by {
                if i != index {
                    assert(after.outcomes[i] == held.outcomes[i]);
                }
            }
        },
    }
}

proof fn lemma_batch_served(
    run: RunContent,
    app: AppContent,
    indices: Seq<int>,
    records: Seq<PackageRecordContent>,
    table: Seq<DecodedContent>,
    now: u64,
    now_ms: u64,
)
    requires
        is_sound(run, table),
        members_canonical(run.targets),
        well_kept(app),
        asks_for_open(run, indices),
    ensures
        ({
            let after = batch_served(
                FetchProgress { app, outcomes: run.outcomes, fallback: run.fallback },
                run.targets,
                indices,
                records,
                table,
                run.purpose,
                now,
                now_ms,
            );
            &&& is_sound(
                RunContent { outcomes: after.outcomes, fallback: after.fallback, ..run },
                table,
            )
            &&& well_kept(after.app)
        }),
    decreases indices.len(),
{
    let start = FetchProgress { app, outcomes: run.outcomes, fallback: run.fallback };
    if indices.len() > 0 {
        let rest = indices.drop_last();
        assert forall|k: int| 0 <= k < rest.len() implies run.unresolved.contains(
            #[trigger] rest[k],
        ) by {
            assert(rest[k] == indices[k]);
        }
        lemma_batch_served(run, app, rest, records, table, now, now_ms);
        assert(run.unresolved.contains(indices[indices.len() - 1]));
        lemma_served(
            run,
            batch_served(
                start,
                run.targets,
                rest,
                records,
                table,
                run.purpose,
                now,
                now_ms,
            ),
            indices.last(),
            records,
            table,
            now,
            now_ms,
        );
    } else {
        assert(run == (RunContent { outcomes: start.outcomes, fallback: start.fallback, ..run }));
    }
}

/// An answer about key packages leaves a resolution sound and the directory well kept.
pub proof fn law_package_answer_keeps_a_resolution_sound(
    run: RunContent,
    table: Seq<DecodedContent>,
    wider: Seq<DecodedContent>,
    app: AppContent,
    indices: Seq<int>,
    answer: Result<Seq<PackageRecordContent>, Seq<char>>,
    now: u64,
    now_ms: u64,
)
    requires
        is_sound(run, table),
        extends(wider, table),
        members_canonical(run.targets),
        well_kept(app),
        asks_for_open(run, indices),
    ensures
        is_sound(packages_answered(run, app, indices, answer, wider, now, now_ms).1, wider),
        well_kept(packages_answered(run, app, indices, answer, wider, now, now_ms).0),
{
    lemma_wider_table(run, table, wider);
    match answer {
        Ok(records) => {
            lemma_batch_served(run, app, indices, records, wider, now, now_ms);
        },
        Err(_) => {
            let after = packages_answered(run, app, indices, answer, wider, now, now_ms).1;
            assert forall|i: int| #[trigger] after.fallback.contains(i) implies
                run.unresolved.contains(i) by {
                let k = choose|k: int| 0 <= k < after.fallback.len() && after.fallback[k] == i;
                if k < run.fallback.len() {
                    assert(run.fallback[k] == i);
                    assert(run.fallback.contains(i));
                } else {
                    assert(indices[k - run.fallback.len()] == i);
                }
            }
        },
    }
}

/// An answer about the key packages of one member leaves a resolution sound and the
/// directory well kept.
pub proof fn law_lone_package_answer_keeps_a_resolution_sound(
    run: RunContent,
    table: Seq<DecodedContent>,
    wider: Seq<DecodedContent>,
    app: AppContent,
    index: int,
    answer: Result<Seq<PackageRecordContent>, Seq<char>>,
    now: u64,
    now_ms: u64,
)
    requires
        is_sound(run, table),
        extends(wider, table),
        members_canonical(run.targets),
        well_kept(app),
        run.unresolved.contains(index),
    ensures
        is_sound(package_answered_alone(run, app, index, answer, wider, now, now_ms).1, wider),
        well_kept(package_answered_alone(run, app, index, answer, wider, now, now_ms).0),
{
    lemma_wider_table(run, table, wider);
    let target = run.targets[index];
    let id = target.account_id_hex;
    assert(public_key_hex(id) == Some(id));
    let after = package_answered_alone(run, app, index, answer, wider, now, now_ms).1;
    lemma_settled_tally(run, index, after.outcomes[index]);
    assert(after.outcomes =~= run.outcomes.update(index, after.outcomes[index]));
    lemma_entry_is_of(app, id, Gate::Inspect);
    lemma_entry_is_of(app, id, Gate::Given(false));
    lemma_entry_is_of(app, id, Gate::Given(true));
    if let (Ok(records), Ok(cached)) = (answer, target_entry(app, target)) {
        lemma_offered_is_of(app, target, records, cached, wider, freshness_at(app, now));
        if let Ok(offered) = offered_package(
            app,
            id,
            records,
            cached,
            entry_decoding(wider, cached),
            freshness_at(app, now),
        ) {
            lemma_accepted(
                app,
                run.purpose,
                FetchedContent { relay_lists: target.relay_lists, ..offered },
                wider,
                now,
                now_ms,
            );
        }
    }
    assert forall|i: int| 0 <= i < after.outcomes.len() implies (
    #[trigger] after.outcomes[i] matches Some(Ok(package)) ==> carries(
        wider,
        package,
        run.targets[i].account_id_hex,
    )) by {
        if i != index {
            assert(after.outcomes[i] == run.outcomes[i]);
        }
    }
}

/// A resolved roster has one key package for each member, at the member's place and of
/// the member's own identity; and every member was either reused or looked up.
pub proof fn law_resolved_packages_are_of_their_members(
    run: RunContent,
    table: Seq<DecodedContent>,
)
    requires
        is_sound(run, table),
        assembled(run.targets, run.outcomes) is Ok,
    ensures
        assembled(run.targets, run.outcomes)->Ok_0.len() == run.targets.len(),
        forall|i: int|
            0 <= i < run.targets.len() ==> carries(
                table,
                #[trigger] assembled(run.targets, run.outcomes)->Ok_0[i],
                run.targets[i].account_id_hex,
            ),
        run.targets.len() == run.reused + run.unresolved.len(),
{
    law_resolved_roster_is_complete(run.targets, run.outcomes);
    let packages = assembled(run.targets, run.outcomes)->Ok_0;
    assert forall|i: int| 0 <= i < run.targets.len() implies carries(
        table,
        #[trigger] packages[i],
        run.targets[i].account_id_hex,
    ) by {
        assert(run.outcomes[i] == Some(Ok::<KeyPackageContent, ErrorContent>(packages[i])));
    }
    if run.targets.len() != run.reused + run.unresolved.len() {
        let i = choose|i: int|
            0 <= i < run.outcomes.len() && is_refused(#[trigger] run.outcomes[i])
                && !run.unresolved.contains(i);
        assert(run.outcomes[i] == Some(Ok::<KeyPackageContent, ErrorContent>(packages[i])));
    }
}

/// The identities that a roster names, each where it is first named.
pub open spec fn first_named(app: AppContent, names: Seq<Seq<char>>) -> Seq<Seq<char>>
    decreases names.len(),
{
    if names.len() == 0 {
        Seq::empty()
    } else {
        let before = first_named(app, names.drop_last());
        match member_id(app, names.last()) {
            Ok(id) => if before.contains(id) {
                before
            } else {
                before.push(id)
            },
            Err(_) => before,
        }
    }
}

/// The members of a roster are the identities it names, each once, in the order in
/// which they are first named.
pub proof fn law_members_stand_where_first_named(app: AppContent, names: Seq<Seq<char>>)
    requires
        targets_of(app, names) is Ok,
    ensures
        targets_of(app, names)->Ok_0.map_values(|t: TargetContent| t.account_id_hex)
            == first_named(app, names),
        first_named(app, names).no_duplicates(),
    decreases names.len(),
{
    let make = |t: TargetContent| t.account_id_hex;
    let after = targets_of(app, names)->Ok_0;
    if names.len() > 0 {
        let rest = names.drop_last();
        law_members_stand_where_first_named(app, rest);
        let before = targets_of(app, rest)->Ok_0;
        let ids = first_named(app, rest);
        let id = member_id(app, names.last())->Ok_0;
        assert(before.map_values(make) =~= ids);
        assert(is_target(before, id) <==> ids.contains(id)) by {
            if is_target(before, id) {
                let i = choose|i: int|
                    0 <= i < before.len() && (#[trigger] before[i]).account_id_hex == id;
                assert(ids[i] == id);
            }
            if ids.contains(id) {
                let i = choose|i: int| 0 <= i < ids.len() && ids[i] == id;
                assert(before[i].account_id_hex == id);
            }
        }
        if !is_target(before, id) {
            assert(after.map_values(make) =~= ids.push(id));
        }
    } else {
        assert(after.map_values(make) =~= first_named(app, names));
    }
}

} // verus!
