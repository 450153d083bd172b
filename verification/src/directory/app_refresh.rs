//! Keeping what a refresh of the directory brought.

use crate::directory::app_entry::{entry_named, Gate};
use crate::directory::app_remember::{with_newer_profile, with_observed_lists, with_users};
use crate::directory::app_state::{AppContent, MarmotApp};
use crate::directory::entry::{
    EntryContent, ProfileContent, UserDirectoryRecord, UserProfileMetadata,
};
use crate::directory::key_packages::outcome;
use crate::directory::records::AccountRelayListStatus;
use crate::error::{AppError, ErrorContent};
use vstd::prelude::*;

verus! {

/// What a refresh of an entry answers: the entry, or that there is none.
pub open spec fn refreshed_entry(app: AppContent, text: Seq<char>) -> Result<
    EntryContent,
    ErrorContent,
> {
    match entry_named(app, text, Gate::Inspect) {
        Err(error) => Err(error),
        Ok(Some(entry)) => Ok(entry),
        Ok(None) => Err(ErrorContent::MissingDirectoryEntry(text)),
    }
}

/// The app after profiles were remembered where they are newer; the first that fails
/// ends it.
pub open spec fn with_profiles(
    app: AppContent,
    profiles: Seq<(Seq<char>, ProfileContent)>,
    now: i64,
) -> (AppContent, Option<ErrorContent>)
    decreases profiles.len(),
{
    if profiles.len() == 0 {
        (app, None)
    } else {
        match with_newer_profile(app, profiles[0].0, profiles[0].1, now) {
            Err(error) => (app, Some(error)),
            Ok(after) => with_profiles(after, profiles.drop_first(), now),
        }
    }
}

/// The app after the profiles of accounts were refreshed, and how many there were.
pub open spec fn profiles_refreshed(
    app: AppContent,
    ids: Seq<Seq<char>>,
    profiles: Seq<(Seq<char>, ProfileContent)>,
    now: i64,
) -> (AppContent, Result<nat, ErrorContent>) {
    if ids.len() == 0 {
        (app, Ok(0))
    } else {
        let (known, fault) = with_users(app, ids, now);
        if fault is Some {
            (known, Err(fault->0))
        } else {
            let (after, fault) = with_profiles(known, profiles, now);
            (
                after,
                match fault {
                    Some(error) => Err(error),
                    None => Ok(profiles.len()),
                },
            )
        }
    }
}

impl MarmotApp {
    /// Keeps the relay lists that a refresh of an account observed, and returns its
    /// entry.
    pub fn finish_directory_entry_refresh(
        &mut self,
        account_id_hex: &str,
        status: &AccountRelayListStatus,
        now: i64,
    ) -> (result: Result<UserDirectoryRecord, AppError>)
        ensures
            match with_observed_lists(old(self)@, account_id_hex@, status.deep_view(), now) {
                Err(error) => final(self)@ == old(self)@ && outcome(result) == Err::<
                    EntryContent,
                    ErrorContent,
                >(error),
                Ok(app) => final(self)@ == app && outcome(result) == refreshed_entry(
                    app,
                    account_id_hex@,
                ),
            },
    {
        if let Err(error) = self.remember_observed_directory_relay_lists(
            account_id_hex,
            status,
            now,
        ) {
            return Err(error);
        }
        match self.directory_entry_for_account_id(account_id_hex) {
            Err(error) => Err(error),
            Ok(Some(entry)) => Ok(entry),
            Ok(None) => Err(AppError::MissingDirectoryEntry(account_id_hex.to_owned())),
        }
    }

    /// Makes accounts known and remembers the profiles that were fetched of them.
    /// Returns how many profiles there were.
    pub fn finish_profiles_refresh(
        &mut self,
        account_ids: &Vec<String>,
        profiles: &Vec<(String, UserProfileMetadata)>,
        now: i64,
    ) -> (result: Result<usize, AppError>)
        ensures
            ({
                let (app, answer) = profiles_refreshed(
                    old(self)@,
                    account_ids.deep_view(),
                    profiles.deep_view(),
                    now,
                );
                &&& final(self)@ == app
                &&& match (answer, result) {
                    (Ok(expected), Ok(count)) => count == expected,
                    (Err(expected), Err(error)) => error.deep_view() == expected,
                    _ => false,
                }
            }),
    {
        if account_ids.len() == 0 {
            return Ok(0);
        }
        if let Err(error) = self.remember_directory_users(account_ids, now) {
            return Err(error);
        }
        let ghost known = self@;
        let ghost all = profiles.deep_view();
        let mut i: usize = 0;
        assert(all.skip(0) =~= all);
        while i < profiles.len()
            invariant
                i <= profiles@.len(),
                all == profiles.deep_view(),
                account_ids@.len() > 0,
                with_users(old(self)@, account_ids.deep_view(), now) == (
                    known,
                    None::<ErrorContent>,
                ),
                with_profiles(known, all, now) == with_profiles(self@, all.skip(i as int), now),
            decreases profiles.len() - i,
        {
            assert(all.skip(i as int)[0] == profiles@[i as int].deep_view());
            assert(all.skip(i as int).drop_first() =~= all.skip(i + 1));
            if let Err(error) = self.remember_directory_profile_if_newer(
                &profiles[i].0,
                &profiles[i].1,
                now,
            ) {
                return Err(error);
            }
            i += 1;
        }
        Ok(profiles.len())
    }
}

} // verus!
