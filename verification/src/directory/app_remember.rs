//! Remembering what was observed of an identity: relay lists, profiles, follows
//! and key packages.

use crate::collections::{copy_list, Key};
use crate::directory::app_entry::{
    empty_entry, entry_named, is_written_form, lossy_npub, npub_for_account_id_lossy,
    parse_account_id_hex, Gate,
};
use crate::directory::app_save::{saved, stepped};
use crate::directory::app_state::{
    is_local, signs_now, standing, AccountContent, Admission, AppContent, MarmotApp,
};
use crate::directory::cache::{closed_error, graph_fault, with_graph_follows};
use crate::directory::entry::{
    EntryContent, ProfileContent, UserDirectoryRecord, UserProfileMetadata,
};
use crate::directory::key_packages::{outcome, verdict};
use crate::directory::records::{refreshed, AccountRelayListStatus, RelayListStatusContent};
use crate::error::{AppError, ErrorContent};
use crate::text::public_key_hex;
use vstd::prelude::*;

verus! {

/// The app after an entry was saved, by how its identity stands to this device.
pub open spec fn saved_entry(
    app: AppContent,
    entry: EntryContent,
    reason: Seq<char>,
    now: i64,
) -> Result<AppContent, ErrorContent> {
    saved(
        app,
        entry,
        reason,
        now,
        Gate::Given(standing(app, entry.account_id_hex) is Admitted),
    )
}

/// What is known of an identity, or an entry that says nothing of it.
pub open spec fn entry_or_empty(app: AppContent, text: Seq<char>, gate: Gate) -> Result<
    EntryContent,
    ErrorContent,
> {
    match entry_named(app, text, gate) {
        Err(error) => Err(error),
        Ok(Some(entry)) => Ok(entry),
        Ok(None) => Ok(empty_entry(app, text)),
    }
}

/// The app after an identity's relay lists were remembered.
pub open spec fn with_relay_lists(
    app: AppContent,
    id: Seq<char>,
    lists: RelayListStatusContent,
    now: i64,
) -> Result<AppContent, ErrorContent> {
    match entry_or_empty(app, id, Gate::Inspect) {
        Err(error) => Err(error),
        Ok(entry) => saved_entry(
            app,
            EntryContent { account_id_hex: id, relay_lists: lists, ..entry },
            "directory"@,
            now,
        ),
    }
}

/// The app after relay lists of an identity were observed. The route of an account
/// of this device is not replaced by what was observed.
pub open spec fn with_observed_lists(
    app: AppContent,
    text: Seq<char>,
    lists: RelayListStatusContent,
    now: i64,
) -> Result<AppContent, ErrorContent> {
    match public_key_hex(text) {
        None => Err(ErrorContent::InvalidPublicKey),
        Some(id) => if !is_local(app, id) {
            with_relay_lists(app, id, lists, now)
        } else {
            match entry_or_empty(app, id, Gate::Inspect) {
                Err(error) => Err(error),
                Ok(entry) => saved_entry(
                    app,
                    EntryContent {
                        account_id_hex: id,
                        relay_lists: refreshed(
                            RelayListStatusContent { nip65: entry.relay_lists.nip65, ..lists },
                        ),
                        ..entry
                    },
                    "directory"@,
                    now,
                ),
            }
        },
    }
}

/// The app after an identity became known for a reason.
pub open spec fn with_user(
    app: AppContent,
    text: Seq<char>,
    reason: Seq<char>,
    now: i64,
) -> Result<AppContent, ErrorContent> {
    match public_key_hex(text) {
        None => Err(ErrorContent::InvalidPublicKey),
        Some(id) => match entry_or_empty(app, id, Gate::Inspect) {
            Err(error) => Err(error),
            Ok(entry) => saved_entry(app, entry, reason, now),
        },
    }
}

/// The app after each of a list of identities became known; the first that fails
/// ends it.
pub open spec fn with_users(app: AppContent, ids: Seq<Seq<char>>, now: i64) -> (
    AppContent,
    Option<ErrorContent>,
)
    decreases ids.len(),
{
    if ids.len() == 0 {
        (app, None)
    } else {
        let (before, fault) = with_users(app, ids.drop_last(), now);
        if fault is Some {
            (before, fault)
        } else {
            match with_user(before, ids.last(), "directory"@, now) {
                Ok(after) => (after, None),
                Err(error) => (before, Some(error)),
            }
        }
    }
}

/// The app after an identity's profile was remembered.
pub open spec fn with_profile(
    app: AppContent,
    text: Seq<char>,
    profile: ProfileContent,
    now: i64,
) -> Result<AppContent, ErrorContent> {
    match entry_or_empty(app, text, Gate::Inspect) {
        Err(error) => Err(error),
        Ok(entry) => saved_entry(
            app,
            EntryContent { profile: Some(profile), ..entry },
            "directory"@,
            now,
        ),
    }
}

/// Whether an identity's known profile is at least as recent as another one.
pub open spec fn knows_profile(entry: Option<EntryContent>, created_at: u64) -> bool {
    match entry {
        Some(entry) => match entry.profile {
            Some(profile) => profile.created_at >= created_at,
            None => false,
        },
        None => false,
    }
}

/// The app after a profile was remembered where it is newer than the known one.
pub open spec fn with_newer_profile(
    app: AppContent,
    text: Seq<char>,
    profile: ProfileContent,
    now: i64,
) -> Result<AppContent, ErrorContent> {
    match entry_named(app, text, Gate::Inspect) {
        Err(error) => Err(error),
        Ok(entry) => if knows_profile(entry, profile.created_at) {
            Ok(app)
        } else {
            with_profile(app, text, profile, now)
        },
    }
}

/// A contact list and where it was found.
#[derive(Debug)]
pub struct FetchedFollowList {
    pub follows: Vec<String>,
    pub source_relays: Vec<String>,
}

/// The content of a [`FetchedFollowList`].
#[verifier::ext_equal]
pub struct FollowListContent {
    pub follows: Seq<Seq<char>>,
    pub source_relays: Seq<Seq<char>>,
}

impl DeepView for FetchedFollowList {
    type V = FollowListContent;

    open spec fn deep_view(&self) -> FollowListContent {
        FollowListContent {
            follows: self.follows.deep_view(),
            source_relays: self.source_relays.deep_view(),
        }
    }
}

pub open spec fn with_follows(entry: EntryContent, list: FollowListContent) -> EntryContent {
    EntryContent {
        follows: list.follows,
        follow_source_relays: list.source_relays,
        ..entry
    }
}

/// The app after a contact list was remembered and everyone on it became known.
pub open spec fn with_follow_list(
    app: AppContent,
    text: Seq<char>,
    list: FollowListContent,
    now: i64,
) -> (AppContent, Option<ErrorContent>) {
    match entry_or_empty(app, text, Gate::Inspect) {
        Err(error) => (app, Some(error)),
        Ok(entry) => match saved_entry(app, with_follows(entry, list), "directory"@, now) {
            Err(error) => (app, Some(error)),
            Ok(after) => with_users(after, list.follows, now),
        },
    }
}

/// The accounts after the signed-in ones learned an identity's follows for their
/// search graphs; the first that fails ends it.
pub open spec fn with_edges(
    accounts: Seq<AccountContent>,
    id: Seq<char>,
    npub: Seq<char>,
    follows: Seq<Seq<char>>,
) -> (Seq<AccountContent>, Option<ErrorContent>)
    decreases accounts.len(),
{
    if accounts.len() == 0 {
        (accounts, None)
    } else {
        let (before, fault) = with_edges(accounts.drop_last(), id, npub, follows);
        let account = accounts.last();
        if fault is Some || !signs_now(account) {
            (before.push(account), fault)
        } else if account.cache.closed {
            (before.push(account), Some(closed_error()))
        } else if graph_fault(follows) is Some {
            (before.push(account), graph_fault(follows))
        } else {
            (
                before.push(
                    AccountContent {
                        cache: with_graph_follows(account.cache, id, npub, follows),
                        ..account
                    },
                ),
                None,
            )
        }
    }
}

/// The app after a contact list became available to searches. Nobody on it becomes
/// known by that.
pub open spec fn with_search_edges(
    app: AppContent,
    id: Seq<char>,
    list: FollowListContent,
    now: i64,
) -> (AppContent, Option<ErrorContent>) {
    let (accounts, fault) = with_edges(app.accounts, id, lossy_npub(id), list.follows);
    let after = AppContent { accounts, ..app };
    if fault is Some {
        (after, fault)
    } else {
        match entry_named(after, id, Gate::Inspect) {
            Err(error) => (after, Some(error)),
            Ok(None) => (after, None),
            Ok(Some(entry)) => match saved_entry(
                after,
                with_follows(entry, list),
                "directory"@,
                now,
            ) {
                Ok(done) => (done, None),
                Err(error) => (after, Some(error)),
            },
        }
    }
}

/// Whether a step that may stop half-way did what is said of it.
pub open spec fn advanced(
    expected: (AppContent, Option<ErrorContent>),
    after: AppContent,
    result: Result<(), AppError>,
) -> bool {
    after == expected.0 && verdict(result) == expected.1
}

impl MarmotApp {
    /// Saves an entry for a reason.
    pub fn save_directory_entry_with_reason(
        &mut self,
        entry: UserDirectoryRecord,
        reason: &str,
        now: i64,
    ) -> (result: Result<(), AppError>)
        ensures
            stepped(
                saved_entry(old(self)@, entry.deep_view(), reason@, now),
                old(self)@,
                final(self)@,
                result,
            ),
    {
        let admitted = match self.local_key_package_admission(&entry.account_id_hex) {
            Admission::Admitted(_) => true,
            _ => false,
        };
        self.save_directory_entry_under_gate(entry, reason, now, Gate::Given(admitted))
    }

    /// Saves an entry.
    pub fn save_directory_entry(&mut self, entry: UserDirectoryRecord, now: i64) -> (result: Result<
        (),
        AppError,
    >)
        ensures
            stepped(
                saved_entry(old(self)@, entry.deep_view(), "directory"@, now),
                old(self)@,
                final(self)@,
                result,
            ),
    {
        self.save_directory_entry_with_reason(entry, "directory", now)
    }

    fn entry_or_empty_for(&self, account_id_hex: &String, gate: Gate) -> (result: Result<
        UserDirectoryRecord,
        AppError,
    >)
        ensures
            outcome(result) == entry_or_empty(self@, account_id_hex@, gate),
    {
        let entry = match parse_account_id_hex(account_id_hex.as_str()) {
            Ok(id) => self.directory_entry_with_gate(&id, gate),
            Err(error) => Err(error),
        };
        match entry {
            Err(error) => Err(error),
            Ok(Some(entry)) => Ok(entry),
            Ok(None) => Ok(self.empty_directory_record(account_id_hex)),
        }
    }

    /// Remembers an identity's relay lists.
    pub fn remember_directory_relay_lists(
        &mut self,
        account_id_hex: &String,
        relay_lists: &AccountRelayListStatus,
        now: i64,
    ) -> (result: Result<(), AppError>)
        ensures
            stepped(
                with_relay_lists(old(self)@, account_id_hex@, relay_lists.deep_view(), now),
                old(self)@,
                final(self)@,
                result,
            ),
    {
        match self.entry_or_empty_for(account_id_hex, Gate::Inspect) {
            Err(error) => Err(error),
            Ok(entry) => {
                let mut entry = entry;
                entry.account_id_hex = account_id_hex.clone();
                entry.relay_lists = relay_lists.duplicate();
                self.save_directory_entry(entry, now)
            },
        }
    }

    /// Remembers relay lists that were observed of an identity. The route of an
    /// account of this device is not replaced by what was observed.
    pub fn remember_observed_directory_relay_lists(
        &mut self,
        account_id_hex: &str,
        relay_lists: &AccountRelayListStatus,
        now: i64,
    ) -> (result: Result<(), AppError>)
        ensures
            stepped(
                with_observed_lists(old(self)@, account_id_hex@, relay_lists.deep_view(), now),
                old(self)@,
                final(self)@,
                result,
            ),
    {
        let id = match parse_account_id_hex(account_id_hex) {
            Ok(id) => id,
            Err(error) => return Err(error),
        };
        if self.find_account(&id).is_none() {
            return self.remember_directory_relay_lists(&id, relay_lists, now);
        }
        match self.entry_or_empty_for(&id, Gate::Inspect) {
            Err(error) => Err(error),
            Ok(entry) => {
                let mut entry = entry;
                let local_nip65 = entry.relay_lists.nip65.duplicate();
                entry.account_id_hex = id;
                let mut lists = relay_lists.duplicate();
                lists.nip65 = local_nip65;
                lists.refresh();
                entry.relay_lists = lists;
                self.save_directory_entry(entry, now)
            },
        }
    }

    /// Makes an identity known for a reason.
    pub fn remember_directory_user_with_reason(
        &mut self,
        account_id_hex: &str,
        reason: &str,
        now: i64,
    ) -> (result: Result<(), AppError>)
        ensures
            stepped(
                with_user(old(self)@, account_id_hex@, reason@, now),
                old(self)@,
                final(self)@,
                result,
            ),
    {
        match parse_account_id_hex(account_id_hex) {
            Err(error) => Err(error),
            Ok(id) => match self.entry_or_empty_for(&id, Gate::Inspect) {
                Err(error) => Err(error),
                Ok(entry) => self.save_directory_entry_with_reason(entry, reason, now),
            },
        }
    }

    /// Makes the sender of a message known.
    pub fn remember_directory_message_sender(&mut self, sender: &str, now: i64) -> (result: Result<
        (),
        AppError,
    >)
        ensures
            stepped(
                with_user(old(self)@, sender@, "message"@, now),
                old(self)@,
                final(self)@,
                result,
            ),
    {
        self.remember_directory_user_with_reason(sender, "message", now)
    }

    /// Makes each of a list of identities known; the first that fails ends it.
    pub fn remember_directory_users(&mut self, ids: &Vec<String>, now: i64) -> (result: Result<
        (),
        AppError,
    >)
        ensures
            advanced(with_users(old(self)@, ids.deep_view(), now), final(self)@, result),
    {
        let ghost start = self@;
        let ghost all = ids.deep_view();
        let mut i: usize = 0;
        assert(all.take(0) =~= Seq::<Seq<char>>::empty());
        while i < ids.len()
            invariant
                i <= ids@.len(),
                all == ids.deep_view(),
                start == old(self)@,
                (self@, None::<ErrorContent>) == with_users(start, all.take(i as int), now),
            decreases ids.len() - i,
        {
            assert(all.take(i + 1).drop_last() =~= all.take(i as int));
            assert(all.take(i + 1).last() == ids@[i as int]@);
            match self.remember_directory_user_with_reason(ids[i].as_str(), "directory", now) {
                Ok(()) => {},
                Err(error) => {
                    proof {
                        lemma_users_stop(start, all, i + 1, now);
                    }
                    return Err(error);
                },
            }
            i += 1;
        }
        assert(all.take(all.len() as int) =~= all);
        Ok(())
    }

    /// Remembers a contact list, and makes everyone on it known.
    pub fn remember_directory_follow_list(
        &mut self,
        account_id_hex: &String,
        list: &FetchedFollowList,
        now: i64,
    ) -> (result: Result<(), AppError>)
        ensures
            advanced(
                with_follow_list(old(self)@, account_id_hex@, list.deep_view(), now),
                final(self)@,
                result,
            ),
    {
        let mut entry = match self.entry_or_empty_for(account_id_hex, Gate::Inspect) {
            Err(error) => return Err(error),
            Ok(entry) => entry,
        };
        entry.follows = copy_list(&list.follows);
        entry.follow_source_relays = copy_list(&list.source_relays);
        match self.save_directory_entry(entry, now) {
            Err(error) => Err(error),
            Ok(()) => self.remember_directory_users(&list.follows, now),
        }
    }

    /// Makes a contact list available to searches. Nobody on it becomes known by
    /// that, so that following contact lists cannot grow without bound.
    pub fn remember_directory_follow_edges_for_search(
        &mut self,
        account_id_hex: &String,
        list: &FetchedFollowList,
        now: i64,
    ) -> (result: Result<(), AppError>)
        ensures
            advanced(
                with_search_edges(old(self)@, account_id_hex@, list.deep_view(), now),
                final(self)@,
                result,
            ),
    {
        let npub = npub_for_account_id_lossy(account_id_hex.as_str());
        let ghost start = *self;
        let ghost app = self@;
        let ghost given = self.accounts.deep_view();
        let ghost follows = list.follows.deep_view();
        let mut i: usize = 0;
        assert(given.take(0) =~= Seq::<AccountContent>::empty());
        while i < self.accounts.len()
            invariant
                i <= self.accounts@.len(),
                self.accounts@.len() == given.len(),
                *self == (MarmotApp { accounts: self.accounts, ..start }),
                app == start@,
                start == *old(self),
                given == app.accounts,
                npub@ == lossy_npub(account_id_hex@),
                follows == list.follows.deep_view(),
                follows == list.deep_view().follows,
                with_edges(given.take(i as int), account_id_hex@, npub@, follows).1 is None,
                with_edges(given.take(i as int), account_id_hex@, npub@, follows).0.len() == i,
                forall|j: int|
                    0 <= j < given.len() ==> (#[trigger] self.accounts@[j]).deep_view() == (if j
                        < i {
                        with_edges(given.take(i as int), account_id_hex@, npub@, follows).0[j]
                    } else {
                        given[j]
                    }),
            decreases self.accounts.len() - i,
        {
            assert(given.take(i + 1).drop_last() =~= given.take(i as int));
            assert(given.take(i + 1).last() == given[i as int]);
            let ghost held = self.accounts@;
            assert(held[i as int].deep_view() == given[i as int]);
            if self.accounts[i].is_active_signing() {
                let mut account = self.accounts.remove(i);
                let learned = account.cache.remember_search_graph_follows(
                    account_id_hex.as_str(),
                    npub.as_str(),
                    &list.follows,
                );
                self.accounts.insert(i, account);
                assert(self.accounts@ =~= held.update(i as int, account));
                if let Err(error) = learned {
                    proof {
                        let stopped = with_edges(
                            given.take(i + 1),
                            account_id_hex@,
                            npub@,
                            follows,
                        );
                        lemma_edges_stop(given, i + 1, account_id_hex@, npub@, follows);
                        assert(self.accounts.deep_view() =~= with_edges(
                            given,
                            account_id_hex@,
                            npub@,
                            follows,
                        ).0);
                    }
                    return Err(error);
                }
            }
            i += 1;
        }
        assert(given.take(given.len() as int) =~= given);
        assert(self.accounts.deep_view() =~= with_edges(
            given,
            account_id_hex@,
            npub@,
            follows,
        ).0);
        let entry = match parse_account_id_hex(account_id_hex.as_str()) {
            Ok(id) => self.directory_entry_with_gate(&id, Gate::Inspect),
            Err(error) => Err(error),
        };
        match entry {
            Err(error) => Err(error),
            Ok(None) => Ok(()),
            Ok(Some(entry)) => {
                let mut entry = entry;
                entry.follows = copy_list(&list.follows);
                entry.follow_source_relays = copy_list(&list.source_relays);
                self.save_directory_entry(entry, now)
            },
        }
    }

    /// Remembers an identity's profile.
    pub fn remember_directory_profile(
        &mut self,
        account_id_hex: &String,
        profile: &UserProfileMetadata,
        now: i64,
    ) -> (result: Result<(), AppError>)
        ensures
            stepped(
                with_profile(old(self)@, account_id_hex@, profile.deep_view(), now),
                old(self)@,
                final(self)@,
                result,
            ),
    {
        match self.entry_or_empty_for(account_id_hex, Gate::Inspect) {
            Err(error) => Err(error),
            Ok(entry) => {
                let mut entry = entry;
                entry.profile = Some(profile.duplicate());
                self.save_directory_entry(entry, now)
            },
        }
    }

    /// Remembers an identity's profile where it is newer than the known one. Of two
    /// of one second the known one stays, so that a local edit is not reverted by a
    /// stale copy.
    pub fn remember_directory_profile_if_newer(
        &mut self,
        account_id_hex: &String,
        profile: &UserProfileMetadata,
        now: i64,
    ) -> (result: Result<(), AppError>)
        ensures
            is_written_form(account_id_hex@),
            stepped(
                with_newer_profile(old(self)@, account_id_hex@, profile.deep_view(), now),
                old(self)@,
                final(self)@,
                result,
            ),
    {
        match self.directory_entry_for_account_id(account_id_hex.as_str()) {
            Err(error) => return Err(error),
            Ok(Some(entry)) => {
                if let Some(cached) = &entry.profile {
                    if cached.created_at >= profile.created_at {
                        return Ok(());
                    }
                }
            },
            Ok(None) => {},
        }
        self.remember_directory_profile(account_id_hex, profile, now)
    }
}

proof fn lemma_users_stop(app: AppContent, ids: Seq<Seq<char>>, n: int, now: i64)
    requires
        0 <= n <= ids.len(),
        with_users(app, ids.take(n), now).1 is Some,
    ensures
        with_users(app, ids, now) == with_users(app, ids.take(n), now),
    decreases ids.len() - n,
{
    if n < ids.len() {
        assert(ids.take(n + 1).drop_last() =~= ids.take(n));
        lemma_users_stop(app, ids, n + 1, now);
    } else {
        assert(ids.take(n) =~= ids);
    }
}

proof fn lemma_edges_stop(
    accounts: Seq<AccountContent>,
    n: int,
    id: Seq<char>,
    npub: Seq<char>,
    follows: Seq<Seq<char>>,
)
    requires
        0 <= n <= accounts.len(),
        with_edges(accounts.take(n), id, npub, follows).1 is Some,
        with_edges(accounts.take(n), id, npub, follows).0.len() == n,
    ensures
        with_edges(accounts, id, npub, follows).1 == with_edges(
            accounts.take(n),
            id,
            npub,
            follows,
        ).1,
        with_edges(accounts, id, npub, follows).0 == with_edges(
            accounts.take(n),
            id,
            npub,
            follows,
        ).0 + accounts.skip(n),
    decreases accounts.len() - n,
{
    if n < accounts.len() {
        assert(accounts.take(n + 1).drop_last() =~= accounts.take(n));
        let shorter = with_edges(accounts.take(n), id, npub, follows).0;
        let longer = with_edges(accounts.take(n + 1), id, npub, follows).0;
        assert(longer == shorter.push(accounts[n]));
        lemma_edges_stop(accounts, n + 1, id, npub, follows);
        assert(longer + accounts.skip(n + 1) =~= shorter + accounts.skip(n));
    } else {
        assert(accounts.take(n) =~= accounts);
        assert(with_edges(accounts, id, npub, follows).0 =~= with_edges(
            accounts.take(n),
            id,
            npub,
            follows,
        ).0 + accounts.skip(n));
    }
}

} // verus!
