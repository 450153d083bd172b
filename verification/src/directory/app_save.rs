//! Writing directory entries: to the storage that accounts share and to the cache
//! of each signed-in account.

use crate::collections::Key;
use crate::directory::app_entry::{
    hydrated, hydrated_option, newer_entry, select_newer_directory_entry, Gate,
};
use crate::directory::app_state::{signs_now, AccountContent, AppContent, MarmotApp};
use crate::directory::cache::{bindings, closed_error, entry_fault, find, with_entry};
use crate::directory::entry::{
    copy_optional, DirectoryKeyPackage, DirectoryKeyPackageContent, EntryContent,
    UserDirectoryRecord,
};
use crate::directory::key_packages::outcome;
use crate::directory::records::{nostr_replaceable_coordinate_is_newer, replaces};
use crate::error::{AppError, ErrorContent};
use crate::order::lemma_ascending_set_exists;
use vstd::prelude::*;

verus! {

/// The key package that replaces the other.
pub open spec fn newer_package(
    current: Option<DirectoryKeyPackageContent>,
    candidate: Option<DirectoryKeyPackageContent>,
) -> Option<DirectoryKeyPackageContent> {
    match (current, candidate) {
        (current, None) => current,
        (None, candidate) => candidate,
        (Some(current), Some(candidate)) => if replaces(
            candidate.created_at,
            candidate.key_package_event_id,
            current.created_at,
            current.key_package_event_id,
        ) {
            Some(candidate)
        } else {
            Some(current)
        },
    }
}

/// Keeps the key package that replaces the other.
pub fn merge_newer_live_key_package(
    current: &mut Option<DirectoryKeyPackage>,
    candidate: &Option<DirectoryKeyPackage>,
)
    ensures
        final(current).deep_view() == newer_package(old(current).deep_view(), candidate.deep_view()),
{
    if let Some(candidate) = candidate {
        let replace = match &*current {
            None => true,
            Some(current) => nostr_replaceable_coordinate_is_newer(
                candidate.created_at,
                candidate.key_package_event_id.as_str(),
                current.created_at,
                current.key_package_event_id.as_str(),
            ),
        };
        if replace {
            *current = Some(candidate.duplicate());
        }
    }
}

pub open spec fn package_of_option(entry: Option<EntryContent>) -> Option<
    DirectoryKeyPackageContent,
> {
    match entry {
        Some(entry) => entry.key_package,
        None => None,
    }
}

/// The key package that replaces all others, over the caches of the signed-in
/// accounts.
pub open spec fn live_over_caches(
    app: AppContent,
    accounts: Seq<AccountContent>,
    id: Seq<char>,
    gate: Gate,
    live: Option<DirectoryKeyPackageContent>,
) -> Result<Option<DirectoryKeyPackageContent>, ErrorContent>
    decreases accounts.len(),
{
    if accounts.len() == 0 {
        Ok(live)
    } else if !signs_now(accounts[0]) {
        live_over_caches(app, accounts.drop_first(), id, gate, live)
    } else if accounts[0].cache.closed {
        Err(closed_error())
    } else {
        match hydrated_option(app, find(accounts[0].cache.users, id), gate) {
            Err(error) => Err(error),
            Ok(cached) => live_over_caches(
                app,
                accounts.drop_first(),
                id,
                gate,
                newer_package(live, package_of_option(cached)),
            ),
        }
    }
}

/// Whether every signed-in account's cache already shows an entry.
pub open spec fn caches_show(
    app: AppContent,
    accounts: Seq<AccountContent>,
    id: Seq<char>,
    gate: Gate,
    entry: EntryContent,
) -> bool {
    forall|i: int|
        0 <= i < accounts.len() && signs_now(#[trigger] accounts[i]) ==> hydrated_option(
            app,
            find(accounts[i].cache.users, id),
            gate,
        ) == Ok::<Option<EntryContent>, ErrorContent>(Some(entry))
}

/// An account after an entry was stored, where it is signed in.
pub open spec fn stored_account(
    account: AccountContent,
    entry: EntryContent,
    reason: Seq<char>,
    now: i64,
) -> AccountContent {
    if signs_now(account) {
        AccountContent { cache: with_entry(account.cache, entry, reason, now), ..account }
    } else {
        account
    }
}

/// The accounts after an entry was stored.
pub open spec fn stored_accounts(
    accounts: Seq<AccountContent>,
    entry: EntryContent,
    reason: Seq<char>,
    now: i64,
) -> Seq<AccountContent> {
    accounts.map_values(|account: AccountContent| stored_account(account, entry, reason, now))
}

/// An entry without what only this device knows of it.
pub open spec fn public_entry(entry: EntryContent) -> EntryContent {
    EntryContent { local_account: None, ..entry }
}

/// The entry that is stored: the more recent of the proposed and the shared one,
/// with the key package that replaces all others.
pub open spec fn settled_entry(
    proposed: EntryContent,
    shared: Option<EntryContent>,
    live: Option<DirectoryKeyPackageContent>,
) -> EntryContent {
    EntryContent { key_package: live, ..newer_entry(Some(proposed), shared)->0 }
}

/// The app after an entry was stored everywhere.
pub open spec fn stored_everywhere(
    app: AppContent,
    entry: EntryContent,
    reason: Seq<char>,
    now: i64,
) -> AppContent {
    AppContent {
        shared: app.shared.insert(entry.account_id_hex, public_entry(entry)),
        accounts: stored_accounts(app.accounts, entry, reason, now),
        rebuild_requested: true,
        ..app
    }
}

/// The app after an entry was saved. Where everything already shows it, nothing is
/// written.
pub open spec fn saved(
    app: AppContent,
    entry: EntryContent,
    reason: Seq<char>,
    now: i64,
    gate: Gate,
) -> Result<AppContent, ErrorContent> {
    match hydrated(app, entry, gate) {
        Err(error) => Err(error),
        Ok(proposed) => {
            let id = proposed.account_id_hex;
            match hydrated_option(app, find(app.shared, id), gate) {
                Err(error) => Err(error),
                Ok(shared) => match live_over_caches(
                    app,
                    app.accounts,
                    id,
                    gate,
                    newer_package(proposed.key_package, package_of_option(shared)),
                ) {
                    Err(error) => Err(error),
                    Ok(live) => {
                        let settled = settled_entry(proposed, shared, live);
                        if find(app.shared, id) == Some(public_entry(settled)) && caches_show(
                            app,
                            app.accounts,
                            id,
                            gate,
                            settled,
                        ) {
                            Ok(app)
                        } else {
                            Ok(stored_everywhere(app, settled, reason, now))
                        }
                    },
                },
            }
        },
    }
}

/// Whether a fallible step did what is said of it.
pub open spec fn stepped(
    expected: Result<AppContent, ErrorContent>,
    before: AppContent,
    after: AppContent,
    result: Result<(), AppError>,
) -> bool {
    match expected {
        Ok(app) => result is Ok && after == app,
        Err(error) => result is Err && result->Err_0.deep_view() == error && after == before,
    }
}

proof fn lemma_live_means_open(
    app: AppContent,
    accounts: Seq<AccountContent>,
    id: Seq<char>,
    gate: Gate,
    live: Option<DirectoryKeyPackageContent>,
)
    requires
        live_over_caches(app, accounts, id, gate, live) is Ok,
    ensures
        forall|i: int|
            0 <= i < accounts.len() && signs_now(#[trigger] accounts[i])
                ==> !accounts[i].cache.closed,
    decreases accounts.len(),
{
    if accounts.len() > 0 {
        let rest = accounts.drop_first();
        if !signs_now(accounts[0]) {
            lemma_live_means_open(app, rest, id, gate, live);
        } else {
            let cached = hydrated_option(app, find(accounts[0].cache.users, id), gate)->Ok_0;
            lemma_live_means_open(
                app,
                rest,
                id,
                gate,
                newer_package(live, package_of_option(cached)),
            );
        }
        assert forall|i: int|
            0 <= i < accounts.len() && signs_now(
                #[trigger] accounts[i],
            ) implies !accounts[i].cache.closed by {
            if i > 0 {
                assert(rest[i - 1] == accounts[i]);
            }
        }
    }
}

/// An entry as it is shown can always be stored.
pub proof fn lemma_hydrated_is_storable(app: AppContent, entry: EntryContent, gate: Gate)
    requires
        hydrated(app, entry, gate) is Ok,
    ensures
        entry_fault(hydrated(app, entry, gate)->Ok_0) is None,
{
    let id = crate::text::public_key_hex(entry.account_id_hex)->0;
    lemma_ascending_set_exists(crate::directory::app_entry::parsed_ids(entry.follows)->0);
    lemma_ascending_set_exists(entry.follow_source_relays);
}

impl MarmotApp {
    /// Writes an entry to the cache of every signed-in account.
    fn store_in_caches(&mut self, entry: &UserDirectoryRecord, reason: &str, now: i64)
        requires
            entry_fault(entry.deep_view()) is None,
            forall|i: int|
                0 <= i < old(self)@.accounts.len() && signs_now(
                    #[trigger] old(self)@.accounts[i],
                ) ==> !old(self)@.accounts[i].cache.closed,
        ensures
            *final(self) == (MarmotApp { accounts: final(self).accounts, ..*old(self) }),
            final(self)@.accounts == stored_accounts(
                old(self)@.accounts,
                entry.deep_view(),
                reason@,
                now,
            ),
    {
        let ghost start = *self;
        let ghost given = self.accounts.deep_view();
        let mut i: usize = 0;
        assert(given == old(self)@.accounts);
        while i < self.accounts.len()
            invariant
                i <= self.accounts@.len(),
                self.accounts@.len() == given.len(),
                given == start.accounts.deep_view(),
                *self == (MarmotApp { accounts: self.accounts, ..start }),
                entry_fault(entry.deep_view()) is None,
                forall|j: int|
                    0 <= j < given.len() && signs_now(#[trigger] given[j])
                        ==> !given[j].cache.closed,
                forall|j: int|
                    0 <= j < given.len() ==> (#[trigger] self.accounts@[j]).deep_view() == (if j
                        < i {
                        stored_account(given[j], entry.deep_view(), reason@, now)
                    } else {
                        given[j]
                    }),
            decreases self.accounts.len() - i,
        {
            let ghost held = self.accounts@;
            assert(held[i as int].deep_view() == given[i as int]);
            if self.accounts[i].is_active_signing() {
                let mut account = self.accounts.remove(i);
                let _ = account.cache.put_with_reason(entry, reason, now);
                self.accounts.insert(i, account);
                assert(self.accounts@ =~= held.update(i as int, account));
            }
            i += 1;
        }
        assert(self.accounts.deep_view() =~= stored_accounts(
            given,
            entry.deep_view(),
            reason@,
            now,
        ));
    }

    /// The hydrated entries of an identity in the caches of the signed-in accounts,
    /// and the key package that replaces all others.
    fn read_caches(
        &self,
        account_id_hex: &String,
        gate: Gate,
        live: Option<DirectoryKeyPackage>,
    ) -> (result: Result<Option<DirectoryKeyPackage>, AppError>)
        ensures
            outcome(result) == live_over_caches(
                self@,
                self@.accounts,
                account_id_hex@,
                gate,
                live.deep_view(),
            ),
    {
        let ghost all = self.accounts.deep_view();
        let mut best = live;
        let mut i: usize = 0;
        assert(all.skip(0) =~= all);
        while i < self.accounts.len()
            invariant
                i <= self.accounts@.len(),
                all == self.accounts.deep_view(),
                live_over_caches(self@, all, account_id_hex@, gate, live.deep_view())
                    == live_over_caches(
                    self@,
                    all.skip(i as int),
                    account_id_hex@,
                    gate,
                    best.deep_view(),
                ),
            decreases self.accounts.len() - i,
        {
            assert(all.skip(i as int)[0] == self.accounts@[i as int].deep_view());
            assert(all.skip(i as int).drop_first() =~= all.skip(i + 1));
            if self.accounts[i].is_active_signing() {
                match self.accounts[i].cache.entry(account_id_hex.as_str()) {
                    Err(error) => return Err(error),
                    Ok(None) => {},
                    Ok(Some(entry)) => match self.hydrate_directory_record(entry, gate) {
                        Err(error) => return Err(error),
                        Ok(entry) => {
                            merge_newer_live_key_package(&mut best, &entry.key_package);
                        },
                    },
                }
            }
            i += 1;
        }
        Ok(best)
    }

    /// Whether every signed-in account's cache already shows an entry.
    fn caches_already_show(
        &self,
        account_id_hex: &String,
        entry: &UserDirectoryRecord,
        gate: Gate,
    ) -> (shown: bool)
        requires
            forall|i: int|
                0 <= i < self@.accounts.len() && signs_now(#[trigger] self@.accounts[i])
                    ==> !self@.accounts[i].cache.closed,
        ensures
            shown == caches_show(
                self@,
                self@.accounts,
                account_id_hex@,
                gate,
                entry.deep_view(),
            ),
    {
        let ghost all = self.accounts.deep_view();
        let mut i: usize = 0;
        while i < self.accounts.len()
            invariant
                i <= self.accounts@.len(),
                all == self.accounts.deep_view(),
                all == self@.accounts,
                forall|j: int|
                    0 <= j < all.len() && signs_now(#[trigger] all[j]) ==> !all[j].cache.closed,
                forall|j: int|
                    0 <= j < i && signs_now(#[trigger] all[j]) ==> hydrated_option(
                        self@,
                        find(all[j].cache.users, account_id_hex@),
                        gate,
                    ) == Ok::<Option<EntryContent>, ErrorContent>(Some(entry.deep_view())),
            decreases self.accounts.len() - i,
        {
            assert(all[i as int] == self.accounts@[i as int].deep_view());
            if self.accounts[i].is_active_signing() {
                match self.accounts[i].cache.entry(account_id_hex.as_str()) {
                    Err(_) => return false,
                    Ok(None) => return false,
                    Ok(Some(cached)) => match self.hydrate_directory_record(cached, gate) {
                        Err(_) => return false,
                        Ok(cached) => {
                            if !cached.same(entry) {
                                return false;
                            }
                        },
                    },
                }
            }
            i += 1;
        }
        true
    }

    /// Saves an entry, for a caller that knows how removals of whole accounts are
    /// judged. Where everything already shows it, nothing is written.
    pub fn save_directory_entry_under_gate(
        &mut self,
        entry: UserDirectoryRecord,
        reason: &str,
        now: i64,
        gate: Gate,
    ) -> (result: Result<(), AppError>)
        ensures
            stepped(
                saved(old(self)@, entry.deep_view(), reason@, now, gate),
                old(self)@,
                final(self)@,
                result,
            ),
    {
        let ghost app = self@;
        let ghost given = entry.deep_view();
        let proposed = match self.hydrate_directory_record(entry, gate) {
            Ok(proposed) => proposed,
            Err(error) => return Err(error),
        };
        let shared_record = self.public_directory_user(&proposed.account_id_hex);
        let shared = match &shared_record {
            None => None,
            Some(record) => match self.hydrate_directory_record(record.duplicate(), gate) {
                Ok(shared) => Some(shared),
                Err(error) => return Err(error),
            },
        };
        assert(Ok::<Option<EntryContent>, ErrorContent>(shared.deep_view()) == hydrated_option(
            app,
            find(app.shared, proposed.account_id_hex@),
            gate,
        ));
        let mut live = copy_optional(&proposed.key_package);
        if let Some(shared) = &shared {
            merge_newer_live_key_package(&mut live, &shared.key_package);
        }
        let ghost first_live = live.deep_view();
        assert(first_live == newer_package(
            proposed.deep_view().key_package,
            package_of_option(shared.deep_view()),
        ));
        let live = match self.read_caches(&proposed.account_id_hex, gate, live) {
            Ok(live) => live,
            Err(error) => return Err(error),
        };
        proof {
            lemma_live_means_open(app, app.accounts, proposed.account_id_hex@, gate, first_live);
            lemma_hydrated_is_storable(app, given, gate);
            if shared is Some {
                lemma_hydrated_is_storable(
                    app,
                    find(app.shared, proposed.account_id_hex@)->0,
                    gate,
                );
            }
        }
        let id = proposed.account_id_hex.clone();
        let ghost p = proposed.deep_view();
        let ghost s = shared.deep_view();
        let mut settled = match select_newer_directory_entry(Some(proposed), shared) {
            Some(settled) => settled,
            None => {
                assert(false);
                return Ok(());
            },
        };
        settled.key_package = live;
        assert(settled.deep_view() == settled_entry(p, s, live.deep_view()));
        let mut public = settled.duplicate();
        public.local_account = None;
        let shared_matches = match &shared_record {
            Some(record) => record.same(&public),
            None => false,
        };
        if shared_matches && self.caches_already_show(&id, &settled, gate) {
            return Ok(());
        }
        let key = settled.account_id_hex.clone();
        let _ = self.shared.insert(key, public);
        assert(bindings(self.shared) =~= app.shared.insert(
            settled.account_id_hex@,
            public_entry(settled.deep_view()),
        ));
        self.store_in_caches(&settled, reason, now);
        self.rebuild_requested = true;
        Ok(())
    }
}

/// Whether a key package is kept or was replaced by a later one.
pub open spec fn outlived(
    package: Option<DirectoryKeyPackageContent>,
    by: Option<DirectoryKeyPackageContent>,
) -> bool {
    package is Some ==> by is Some && !replaces(
        package->0.created_at,
        package->0.key_package_event_id,
        by->0.created_at,
        by->0.key_package_event_id,
    )
}

pub proof fn lemma_newer_package(
    current: Option<DirectoryKeyPackageContent>,
    candidate: Option<DirectoryKeyPackageContent>,
    other: Option<DirectoryKeyPackageContent>,
)
    requires
        outlived(other, current),
    ensures
        outlived(current, newer_package(current, candidate)),
        outlived(candidate, newer_package(current, candidate)),
        outlived(other, newer_package(current, candidate)),
{
    use_replacing_laws(current, current, current);
    use_replacing_laws(candidate, candidate, candidate);
    use_replacing_laws(current, candidate, candidate);
    use_replacing_laws(other, candidate, current);
}

proof fn use_replacing_laws(
    first: Option<DirectoryKeyPackageContent>,
    second: Option<DirectoryKeyPackageContent>,
    third: Option<DirectoryKeyPackageContent>,
)
    ensures
        first is Some && second is Some ==> {
            let a = first->0;
            let b = second->0;
            &&& !(replaces(
                a.created_at,
                a.key_package_event_id,
                b.created_at,
                b.key_package_event_id,
            ) && replaces(
                b.created_at,
                b.key_package_event_id,
                a.created_at,
                a.key_package_event_id,
            ))
        },
        first is Some && second is Some && third is Some ==> {
            let a = first->0;
            let b = second->0;
            let c = third->0;
            replaces(a.created_at, a.key_package_event_id, b.created_at, b.key_package_event_id)
                && replaces(
                b.created_at,
                b.key_package_event_id,
                c.created_at,
                c.key_package_event_id,
            ) ==> replaces(
                a.created_at,
                a.key_package_event_id,
                c.created_at,
                c.key_package_event_id,
            )
        },
{
    if first is Some && second is Some {
        let a = first->0;
        let b = second->0;
        crate::directory::records::law_exactly_one_event_replaces_the_other(
            a.created_at,
            a.key_package_event_id,
            b.created_at,
            b.key_package_event_id,
        );
        if third is Some {
            let c = third->0;
            if replaces(
                a.created_at,
                a.key_package_event_id,
                b.created_at,
                b.key_package_event_id,
            ) && replaces(
                b.created_at,
                b.key_package_event_id,
                c.created_at,
                c.key_package_event_id,
            ) {
                crate::directory::records::law_replacing_is_transitive(
                    a.created_at,
                    a.key_package_event_id,
                    b.created_at,
                    b.key_package_event_id,
                    c.created_at,
                    c.key_package_event_id,
                );
            }
        }
    }
}

/// Saving an entry loses no live key package: over all caches, the one that is
/// kept is not replaced by any that was there, and is there if any was.
pub proof fn law_no_live_package_is_lost(
    app: AppContent,
    accounts: Seq<AccountContent>,
    id: Seq<char>,
    gate: Gate,
    live: Option<DirectoryKeyPackageContent>,
    i: int,
)
    requires
        live_over_caches(app, accounts, id, gate, live) is Ok,
        0 <= i < accounts.len(),
        signs_now(accounts[i]),
        hydrated_option(app, find(accounts[i].cache.users, id), gate) is Ok,
    ensures
        outlived(live, live_over_caches(app, accounts, id, gate, live)->Ok_0),
        outlived(
            package_of_option(
                hydrated_option(app, find(accounts[i].cache.users, id), gate)->Ok_0,
            ),
            live_over_caches(app, accounts, id, gate, live)->Ok_0,
        ),
    decreases accounts.len(),
{
    lemma_live_outlives(app, accounts, id, gate, live, live);
    let rest = accounts.drop_first();
    if !signs_now(accounts[0]) {
        assert(rest[i - 1] == accounts[i]);
        law_no_live_package_is_lost(app, rest, id, gate, live, i - 1);
    } else {
        let cached = package_of_option(
            hydrated_option(app, find(accounts[0].cache.users, id), gate)->Ok_0,
        );
        let next = newer_package(live, cached);
        lemma_newer_package(live, cached, None);
        if i == 0 {
            lemma_live_outlives(app, rest, id, gate, next, cached);
        } else {
            assert(rest[i - 1] == accounts[i]);
            law_no_live_package_is_lost(app, rest, id, gate, next, i - 1);
        }
    }
}

pub proof fn lemma_live_outlives(
    app: AppContent,
    accounts: Seq<AccountContent>,
    id: Seq<char>,
    gate: Gate,
    live: Option<DirectoryKeyPackageContent>,
    other: Option<DirectoryKeyPackageContent>,
)
    requires
        live_over_caches(app, accounts, id, gate, live) is Ok,
        outlived(other, live) || other == live,
    ensures
        outlived(other, live_over_caches(app, accounts, id, gate, live)->Ok_0),
    decreases accounts.len(),
{
    use_replacing_laws(live, live, live);
    if accounts.len() > 0 {
        let rest = accounts.drop_first();
        if !signs_now(accounts[0]) {
            lemma_live_outlives(app, rest, id, gate, live, other);
        } else {
            let cached = package_of_option(
                hydrated_option(app, find(accounts[0].cache.users, id), gate)->Ok_0,
            );
            lemma_newer_package(live, cached, other);
            lemma_live_outlives(app, rest, id, gate, newer_package(live, cached), other);
        }
    }
}

/// The key package that a save settles on, where it succeeds.
pub open spec fn settled_package(app: AppContent, entry: EntryContent, gate: Gate) -> Option<
    DirectoryKeyPackageContent,
> {
    let proposed = hydrated(app, entry, gate)->Ok_0;
    let id = proposed.account_id_hex;
    let shared = hydrated_option(app, find(app.shared, id), gate)->Ok_0;
    live_over_caches(
        app,
        app.accounts,
        id,
        gate,
        newer_package(proposed.key_package, package_of_option(shared)),
    )->Ok_0
}

/// Whether every store of an app holds, of an identity, a key package that outlived
/// another: the shared storage and the caches of the signed-in accounts.
pub open spec fn outlived_everywhere(
    app: AppContent,
    id: Seq<char>,
    package: Option<DirectoryKeyPackageContent>,
) -> bool {
    &&& outlived(package, package_of_option(find(app.shared, id)))
    &&& forall|j: int|
        0 <= j < app.accounts.len() && signs_now(#[trigger] app.accounts[j]) ==> outlived(
            package,
            package_of_option(find(app.accounts[j].cache.users, id)),
        )
}

} // verus!
