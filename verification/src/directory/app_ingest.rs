//! Taking in directory events as relays deliver them.

use crate::collections::{copy_list, Key};
use crate::directory::app_entry::{entry_named, parse_account_id_hex, Gate};
use crate::directory::app_remember::{
    advanced, entry_or_empty, saved_entry, with_newer_profile, with_search_edges,
    FetchedFollowList, FollowListContent,
};
use crate::directory::app_save::{saved, stepped};
use crate::directory::app_state::{
    is_local, revision_liveness, slot_retired, standing, Admission, AppContent, MarmotApp,
    Standing,
};
use crate::directory::entry::{
    DirectoryKeyPackage, DirectoryKeyPackageContent, EntryContent, ProfileContent,
    UserDirectoryRecord, UserProfileMetadata,
};
use crate::directory::key_packages::{
    decoding, key_package_from_record, outcome, package_of_record, tag_named, FetchedContent,
    FetchedKeyPackage, KeyPackageEventRecord, KeyPackageMetadata, MetadataContent,
    PackageRecordContent,
};
use crate::directory::records::{
    no_relay_lists, nostr_replaceable_coordinate_is_newer, refreshed, replaces, saturating_sum,
    AccountRelayListStatus, DirectoryFreshness, EventRecordContent, RelayEventRecord,
    RelayListStatusContent, KIND_MARMOT_INBOX_RELAY_LIST, KIND_MARMOT_KEY_PACKAGE,
    KIND_NIP65_RELAY_LIST, KIND_NOSTR_CONTACT_LIST, KIND_NOSTR_METADATA,
};
use crate::error::{AppError, ErrorContent};
use crate::order::{ascending_set, extend_unique, push_unique_texts, sort_dedup};
use crate::text::{hex_encode, hex_text, parse_public_key, public_key_hex};
use vstd::prelude::*;

verus! {

/// A fetched key package as the directory stores it.
pub open spec fn stored_package(fetched: FetchedContent) -> DirectoryKeyPackageContent {
    DirectoryKeyPackageContent {
        key_package_id: fetched.key_package_id,
        key_package_ref_hex: fetched.key_package_ref_hex,
        key_package_event_id: fetched.key_package_event_id,
        key_package_hex: hex_text(fetched.key_package.bytes),
        created_at: fetched.created_at,
        source_relays: fetched.source_relays,
    }
}

/// Whether a stored key package is the fetched one, wherever it was found.
pub open spec fn is_same_package(
    stored: DirectoryKeyPackageContent,
    fetched: FetchedContent,
) -> bool {
    &&& stored.key_package_id == fetched.key_package_id
    &&& stored.key_package_ref_hex == fetched.key_package_ref_hex
    &&& stored.key_package_event_id == fetched.key_package_event_id
    &&& stored.key_package_hex == hex_text(fetched.key_package.bytes)
    &&& stored.created_at == fetched.created_at
}

/// Whether an entry holds the fetched key package.
pub open spec fn holds_package(entry: Option<EntryContent>, fetched: FetchedContent) -> bool {
    match entry {
        Some(entry) => entry.key_package is Some && is_same_package(entry.key_package->0, fetched),
        None => false,
    }
}

/// The entry with a fetched key package. An admitted account of this device keeps
/// its own route.
pub open spec fn entry_with_package(
    entry: EntryContent,
    fetched: FetchedContent,
    admitted: bool,
) -> EntryContent {
    EntryContent {
        account_id_hex: fetched.account_id_hex,
        relay_lists: if admitted {
            refreshed(
                RelayListStatusContent {
                    nip65: entry.relay_lists.nip65,
                    ..fetched.relay_lists
                },
            )
        } else {
            fetched.relay_lists
        },
        key_package: Some(stored_package(fetched)),
        ..entry
    }
}

/// The app after an admitted key package was remembered, and whether it is the one
/// that is known now. `account` is the position of the admitted account of this
/// device, if it is one.
pub open spec fn with_admitted_package(
    app: AppContent,
    fetched: FetchedContent,
    account: Option<int>,
    now: i64,
) -> (AppContent, Result<bool, ErrorContent>) {
    let admitted = account is Some;
    let id = fetched.account_id_hex;
    let liveness = match account {
        Some(i) => revision_liveness(
            app.accounts[i].lifecycle,
            fetched.key_package_ref_hex,
            fetched.key_package_event_id,
        ),
        None => Ok(true),
    };
    if slot_retired(app, id, fetched.key_package_id, admitted) {
        (app, Ok(false))
    } else {
        match liveness {
            Err(error) => (app, Err(error)),
            Ok(false) => (app, Ok(false)),
            Ok(true) => match entry_or_empty(app, id, Gate::Given(admitted)) {
                Err(error) => (app, Err(error)),
                Ok(entry) => if entry.key_package is Some && !replaces(
                    fetched.created_at,
                    fetched.key_package_event_id,
                    entry.key_package->0.created_at,
                    entry.key_package->0.key_package_event_id,
                ) {
                    (app, Ok(is_same_package(entry.key_package->0, fetched)))
                } else {
                    match saved(
                        app,
                        entry_with_package(entry, fetched, admitted),
                        "directory"@,
                        now,
                        Gate::Given(admitted),
                    ) {
                        Err(error) => (app, Err(error)),
                        Ok(after) => match entry_named(after, id, Gate::Given(admitted)) {
                            Err(error) => (after, Err(error)),
                            Ok(entry) => (after, Ok(holds_package(entry, fetched))),
                        },
                    }
                },
            },
        }
    }
}

/// The app after a key package was remembered where it is live.
pub open spec fn with_live_package(app: AppContent, fetched: FetchedContent, now: i64) -> (
    AppContent,
    Result<bool, ErrorContent>,
) {
    match standing(app, fetched.account_id_hex) {
        Standing::Refused => (app, Ok(false)),
        Standing::Remote => with_admitted_package(app, fetched, None, now),
        Standing::Admitted(i) => with_admitted_package(app, fetched, Some(i), now),
    }
}

/// Whether a step that answers did what is said of it.
pub open spec fn answered(
    expected: (AppContent, Result<bool, ErrorContent>),
    after: AppContent,
    result: Result<bool, AppError>,
) -> bool {
    after == expected.0 && crate::directory::app_state::flag(result) == expected.1
}

fn same_as_fetched(stored: &DirectoryKeyPackage, fetched: &FetchedKeyPackage) -> (same: bool)
    ensures
        same == is_same_package(stored.deep_view(), fetched.deep_view()),
{
    stored.key_package_id.same(&fetched.key_package_id) && stored.key_package_ref_hex.same(
        &fetched.key_package_ref_hex,
    ) && stored.key_package_event_id.same(&fetched.key_package_event_id)
        && stored.key_package_hex.same(&hex_encode(fetched.key_package.bytes.as_slice()))
        && stored.created_at == fetched.created_at
}

impl MarmotApp {
    fn entry_for_gate(&self, account_id_hex: &String, gate: Gate) -> (result: Result<
        Option<UserDirectoryRecord>,
        AppError,
    >)
        ensures
            outcome(result) == entry_named(self@, account_id_hex@, gate),
    {
        match parse_account_id_hex(account_id_hex.as_str()) {
            Ok(id) => self.directory_entry_with_gate(&id, gate),
            Err(error) => Err(error),
        }
    }

    /// Remembers a key package of a stranger or of an admitted account of this
    /// device. Answers whether it is the one that is known now.
    fn remember_admitted_key_package(
        &mut self,
        fetched: &FetchedKeyPackage,
        account: Option<usize>,
        now: i64,
    ) -> (result: Result<bool, AppError>)
        requires
            account matches Some(i) ==> i < old(self).accounts@.len(),
        ensures
            answered(
                with_admitted_package(
                    old(self)@,
                    fetched.deep_view(),
                    match account {
                        Some(i) => Some(i as int),
                        None => None,
                    },
                    now,
                ),
                final(self)@,
                result,
            ),
    {
        let admitted = account.is_some();
        if self.removed_slot_is_retired(
            &fetched.account_id_hex,
            &fetched.key_package_id,
            admitted,
        ) {
            return Ok(false);
        }
        if let Some(i) = account {
            assert(self@.accounts[i as int] == self.accounts@[i as int].deep_view());
            match self.accounts[i].key_package_revision_is_live(
                fetched.key_package_ref_hex.as_str(),
                fetched.key_package_event_id.as_str(),
            ) {
                Err(error) => return Err(error),
                Ok(false) => return Ok(false),
                Ok(true) => {},
            }
        }
        let entry = match self.entry_for_gate(&fetched.account_id_hex, Gate::Given(admitted)) {
            Err(error) => return Err(error),
            Ok(Some(entry)) => entry,
            Ok(None) => self.empty_directory_record(&fetched.account_id_hex),
        };
        if let Some(cached) = &entry.key_package {
            if !nostr_replaceable_coordinate_is_newer(
                fetched.created_at,
                fetched.key_package_event_id.as_str(),
                cached.created_at,
                cached.key_package_event_id.as_str(),
            ) {
                return Ok(same_as_fetched(cached, fetched));
            }
        }
        let mut entry = entry;
        let ghost known = entry.deep_view();
        let mut lists = fetched.relay_lists.duplicate();
        if admitted {
            lists.nip65 = entry.relay_lists.nip65.duplicate();
            lists.refresh();
        }
        entry.account_id_hex = fetched.account_id_hex.clone();
        entry.relay_lists = lists;
        entry.key_package = Some(
            DirectoryKeyPackage {
                key_package_id: fetched.key_package_id.clone(),
                key_package_ref_hex: fetched.key_package_ref_hex.clone(),
                key_package_event_id: fetched.key_package_event_id.clone(),
                key_package_hex: hex_encode(fetched.key_package.bytes.as_slice()),
                created_at: fetched.created_at,
                source_relays: copy_list(&fetched.source_relays),
            },
        );
        assert(entry.deep_view() == entry_with_package(known, fetched.deep_view(), admitted));
        match self.save_directory_entry_under_gate(
            entry,
            "directory",
            now,
            Gate::Given(admitted),
        ) {
            Err(error) => return Err(error),
            Ok(()) => {},
        }
        match self.entry_for_gate(&fetched.account_id_hex, Gate::Given(admitted)) {
            Err(error) => Err(error),
            Ok(Some(entry)) => match &entry.key_package {
                Some(stored) => Ok(same_as_fetched(stored, fetched)),
                None => Ok(false),
            },
            Ok(None) => Ok(false),
        }
    }

    /// Remembers a key package where it is live: a stranger's always, this device's
    /// own only while its account is signed in and its private material is live.
    /// Answers whether it is the one that is known now.
    pub fn remember_directory_key_package_if_live(&mut self, fetched: &FetchedKeyPackage, now: i64)
        -> (result: Result<bool, AppError>)
        ensures
            answered(with_live_package(old(self)@, fetched.deep_view(), now), final(self)@, result),
    {
        match self.local_key_package_admission(&fetched.account_id_hex) {
            Admission::Refused => Ok(false),
            Admission::Remote => self.remember_admitted_key_package(fetched, None, now),
            Admission::Admitted(i) => self.remember_admitted_key_package(fetched, Some(i), now),
        }
    }

    /// Remembers a relay list that an event holds. The route of an account of this
    /// device is its own to author.
    pub fn remember_directory_relay_list_event(
        &mut self,
        account_id_hex: &String,
        record: &RelayEventRecord,
        now: i64,
    ) -> (result: Result<(), AppError>)
        ensures
            stepped(
                with_list_event(old(self)@, account_id_hex@, record.deep_view(), now),
                old(self)@,
                final(self)@,
                result,
            ),
    {
        if record.event.kind == KIND_NIP65_RELAY_LIST && self.find_account(
            account_id_hex,
        ).is_some() {
            return Ok(());
        }
        let state = match &record.relay_list {
            None => return Ok(()),
            Some(state) => state,
        };
        let mut entry = match self.entry_for_gate(account_id_hex, Gate::Inspect) {
            Err(error) => return Err(error),
            Ok(Some(entry)) => entry,
            Ok(None) => self.empty_directory_record(account_id_hex),
        };
        if record.event.kind == KIND_NIP65_RELAY_LIST {
            entry.relay_lists.nip65 = state.duplicate();
        } else if record.event.kind == KIND_MARMOT_INBOX_RELAY_LIST {
            entry.relay_lists.inbox = state.duplicate();
        } else {
            return Ok(());
        }
        push_unique_texts(&mut entry.relay_lists.bootstrap_relays, &record.endpoints);
        entry.relay_lists.refresh();
        self.save_directory_entry(entry, now)
    }

    /// What directory events may not be later than.
    pub fn directory_freshness(&self, now: u64) -> (freshness: DirectoryFreshness)
        ensures
            freshness == freshness_at(self@, now),
    {
        DirectoryFreshness::from_now(now, self.config.directory_max_future_skew)
    }

    fn relay_lists_for_gate(&self, account_id_hex: &String, gate: Gate) -> (lists:
        AccountRelayListStatus)
        ensures
            lists.deep_view() == lists_or_none(self@, account_id_hex@, gate),
    {
        match self.entry_for_gate(account_id_hex, gate) {
            Ok(Some(entry)) => entry.relay_lists,
            _ => AccountRelayListStatus::empty(),
        }
    }

    fn ingest_key_package(&mut self, id: &String, record: KeyPackageEventRecord, now: i64)
        -> (result: Result<(), AppError>)
        ensures
            advanced(
                with_package_event(old(self)@, id@, record.deep_view(), now),
                final(self)@,
                result,
            ),
    {
        let mut fetched = match key_package_from_record(record) {
            Err(error) => return Err(error),
            Ok(fetched) => fetched,
        };
        let remembered = match self.local_key_package_admission(id) {
            Admission::Refused => return Ok(()),
            Admission::Remote => {
                fetched.relay_lists = self.relay_lists_for_gate(id, Gate::Given(false));
                self.remember_admitted_key_package(&fetched, None, now)
            },
            Admission::Admitted(i) => {
                fetched.relay_lists = self.relay_lists_for_gate(id, Gate::Given(true));
                self.remember_admitted_key_package(&fetched, Some(i), now)
            },
        };
        match remembered {
            Err(error) => Err(error),
            Ok(_) => Ok(()),
        }
    }

    /// Takes in a directory event, if it is not from the future.
    pub fn ingest_directory_relay_event(&mut self, event: DirectoryIngestEvent, now: u64)
        -> (result: Result<(), AppError>)
        requires
            now <= i64::MAX,
        ensures
            advanced(ingested(old(self)@, event.deep_view(), now), final(self)@, result),
    {
        let freshness = self.directory_freshness(now);
        if !freshness.accepts(&event.record) {
            return Ok(());
        }
        let id = match parse_account_id_hex(event.record.event.pubkey.as_str()) {
            Err(error) => return Err(error),
            Ok(id) => id,
        };
        let at = now as i64;
        let kind = event.record.event.kind;
        if kind == KIND_NIP65_RELAY_LIST && self.find_account(&id).is_some() {
            return Ok(());
        }
        if kind == KIND_NOSTR_METADATA {
            match &event.profile {
                Some(profile) => self.remember_directory_profile_if_newer(&id, profile, at),
                None => Ok(()),
            }
        } else if kind == KIND_NOSTR_CONTACT_LIST {
            let list = follow_list_from_record(&event.record);
            self.remember_directory_follow_edges_for_search(&id, &list, at)
        } else if kind == KIND_NIP65_RELAY_LIST || kind == KIND_MARMOT_INBOX_RELAY_LIST {
            self.remember_directory_relay_list_event(&id, &event.record, at)
        } else if kind == KIND_MARMOT_KEY_PACKAGE {
            self.ingest_key_package(
                &id,
                KeyPackageEventRecord { record: event.record, metadata: event.metadata },
                at,
            )
        } else {
            Ok(())
        }
    }
}

/// The app after a relay list that an event holds was remembered.
pub open spec fn with_list_event(
    app: AppContent,
    id: Seq<char>,
    record: EventRecordContent,
    now: i64,
) -> Result<AppContent, ErrorContent> {
    if record.event.kind == KIND_NIP65_RELAY_LIST && is_local(app, id) {
        Ok(app)
    } else if record.relay_list is None {
        Ok(app)
    } else {
        match entry_or_empty(app, id, Gate::Inspect) {
            Err(error) => Err(error),
            Ok(entry) => if record.event.kind == KIND_NIP65_RELAY_LIST {
                saved_entry(
                    app,
                    EntryContent {
                        relay_lists: refreshed(
                            RelayListStatusContent {
                                nip65: record.relay_list->0,
                                bootstrap_relays: extend_unique(
                                    entry.relay_lists.bootstrap_relays,
                                    record.endpoints,
                                ),
                                ..entry.relay_lists
                            },
                        ),
                        ..entry
                    },
                    "directory"@,
                    now,
                )
            } else if record.event.kind == KIND_MARMOT_INBOX_RELAY_LIST {
                saved_entry(
                    app,
                    EntryContent {
                        relay_lists: refreshed(
                            RelayListStatusContent {
                                inbox: record.relay_list->0,
                                bootstrap_relays: extend_unique(
                                    entry.relay_lists.bootstrap_relays,
                                    record.endpoints,
                                ),
                                ..entry.relay_lists
                            },
                        ),
                        ..entry
                    },
                    "directory"@,
                    now,
                )
            } else {
                Ok(app)
            },
        }
    }
}

pub open spec fn freshness_at(app: AppContent, now: u64) -> DirectoryFreshness {
    DirectoryFreshness {
        latest_created_at: saturating_sum(now, app.config.directory_max_future_skew),
    }
}

/// The relay lists that are known of an identity, or none.
pub open spec fn lists_or_none(app: AppContent, id: Seq<char>, gate: Gate) ->
    RelayListStatusContent {
    match entry_named(app, id, gate) {
        Ok(Some(entry)) => entry.relay_lists,
        _ => no_relay_lists(),
    }
}

/// The app after a key package event.
pub open spec fn with_package_event(
    app: AppContent,
    id: Seq<char>,
    record: PackageRecordContent,
    now: i64,
) -> (AppContent, Option<ErrorContent>) {
    match package_of_record(record) {
        Err(error) => (app, Some(error)),
        Ok(fetched) => match standing(app, id) {
            Standing::Refused => (app, None),
            Standing::Remote => forget_answer(
                with_admitted_package(
                    app,
                    FetchedContent {
                        relay_lists: lists_or_none(app, id, Gate::Given(false)),
                        ..fetched
                    },
                    None,
                    now,
                ),
            ),
            Standing::Admitted(i) => forget_answer(
                with_admitted_package(
                    app,
                    FetchedContent {
                        relay_lists: lists_or_none(app, id, Gate::Given(true)),
                        ..fetched
                    },
                    Some(i),
                    now,
                ),
            ),
        },
    }
}

pub open spec fn forget_answer(step: (AppContent, Result<bool, ErrorContent>)) -> (
    AppContent,
    Option<ErrorContent>,
) {
    (
        step.0,
        match step.1 {
            Ok(_) => None,
            Err(error) => Some(error),
        },
    )
}

/// A directory event with what decoding it gave: the profile that a metadata event
/// holds, and the metadata of a key package.
#[derive(Debug)]
pub struct DirectoryIngestEvent {
    pub record: RelayEventRecord,
    pub profile: Option<UserProfileMetadata>,
    pub metadata: Result<KeyPackageMetadata, String>,
}

/// The content of a [`DirectoryIngestEvent`].
#[verifier::ext_equal]
pub struct IngestContent {
    pub record: EventRecordContent,
    pub profile: Option<ProfileContent>,
    pub metadata: Result<MetadataContent, Seq<char>>,
}

impl DeepView for DirectoryIngestEvent {
    type V = IngestContent;

    open spec fn deep_view(&self) -> IngestContent {
        IngestContent {
            record: self.record.deep_view(),
            profile: self.profile.deep_view(),
            metadata: decoding(self.metadata),
        }
    }
}

/// The identities that a contact list names.
pub open spec fn followed(tags: Seq<Seq<Seq<char>>>) -> Seq<Seq<char>>
    decreases tags.len(),
{
    if tags.len() == 0 {
        Seq::empty()
    } else {
        let before = followed(tags.drop_last());
        let tag = tags.last();
        if tag_named(tag, "p"@) && tag.len() > 1 && public_key_hex(tag[1]) is Some {
            before.push(public_key_hex(tag[1])->0)
        } else {
            before
        }
    }
}

/// The contact list of an event.
pub open spec fn follow_list_of(record: EventRecordContent) -> FollowListContent {
    FollowListContent {
        follows: ascending_set(followed(record.event.tags)),
        source_relays: extend_unique(Seq::empty(), record.endpoints),
    }
}

/// Reads the contact list of an event.
pub fn follow_list_from_record(record: &RelayEventRecord) -> (list: FetchedFollowList)
    ensures
        list.deep_view() == follow_list_of(record.deep_view()),
{
    let tags = &record.event.tags;
    let ghost all = tags.deep_view();
    let name = "p".to_owned();
    let mut follows: Vec<String> = Vec::new();
    let mut i: usize = 0;
    assert(follows.deep_view() =~= followed(all.take(0)));
    while i < tags.len()
        invariant
            i <= tags@.len(),
            all == tags.deep_view(),
            name@ == "p"@,
            follows.deep_view() == followed(all.take(i as int)),
        decreases tags.len() - i,
    {
        assert(all.take(i + 1).drop_last() =~= all.take(i as int));
        assert(all.take(i + 1).last() == tags@[i as int].deep_view());
        let tag = &tags[i];
        if tag.len() > 1 {
            assert(tag.deep_view()[0] == tag@[0]@);
            assert(tag.deep_view()[1] == tag@[1]@);
            if tag[0].same(&name) {
                if let Some(id) = parse_public_key(tag[1].as_str()) {
                    let ghost before = follows.deep_view();
                    follows.push(id);
                    assert(follows.deep_view() =~= before.push(id@));
                }
            }
        }
        i += 1;
    }
    assert(all.take(all.len() as int) =~= all);
    let mut source_relays: Vec<String> = Vec::new();
    assert(source_relays.deep_view() =~= Seq::<Seq<char>>::empty());
    push_unique_texts(&mut source_relays, &record.endpoints);
    FetchedFollowList { follows: sort_dedup(follows), source_relays }
}

/// A step that either happens as a whole or not at all.
pub open spec fn whole(app: AppContent, step: Result<AppContent, ErrorContent>) -> (
    AppContent,
    Option<ErrorContent>,
) {
    match step {
        Ok(after) => (after, None),
        Err(error) => (app, Some(error)),
    }
}

/// The app after a directory event.
pub open spec fn ingested(app: AppContent, event: IngestContent, now: u64) -> (
    AppContent,
    Option<ErrorContent>,
) {
    let kind = event.record.event.kind;
    if !freshness_at(app, now).fresh(event.record) {
        (app, None)
    } else {
        match public_key_hex(event.record.event.pubkey) {
            None => (app, Some(ErrorContent::InvalidPublicKey)),
            Some(id) => if kind == KIND_NIP65_RELAY_LIST && is_local(app, id) {
                (app, None)
            } else if kind == KIND_NOSTR_METADATA {
                match event.profile {
                    Some(profile) => whole(app, with_newer_profile(app, id, profile, now as i64)),
                    None => (app, None),
                }
            } else if kind == KIND_NOSTR_CONTACT_LIST {
                with_search_edges(app, id, follow_list_of(event.record), now as i64)
            } else if kind == KIND_NIP65_RELAY_LIST || kind == KIND_MARMOT_INBOX_RELAY_LIST {
                whole(app, with_list_event(app, id, event.record, now as i64))
            } else if kind == KIND_MARMOT_KEY_PACKAGE {
                with_package_event(
                    app,
                    id,
                    PackageRecordContent { record: event.record, metadata: event.metadata },
                    now as i64,
                )
            } else {
                (app, None)
            },
        }
    }
}

/// An event from the future changes nothing.
pub proof fn law_future_event_is_ignored(app: AppContent, event: IngestContent, now: u64)
    requires
        event.record.event.created_at > saturating_sum(now, app.config.directory_max_future_skew),
    ensures
        ingested(app, event, now) == (app, None::<ErrorContent>),
{
}

/// Nothing that relays deliver replaces the route of an account of this device.
pub proof fn law_own_route_is_not_ingested(app: AppContent, event: IngestContent, now: u64)
    requires
        event.record.event.kind == KIND_NIP65_RELAY_LIST,
        public_key_hex(event.record.event.pubkey) is Some,
        is_local(app, public_key_hex(event.record.event.pubkey)->0),
    ensures
        ingested(app, event, now) == (app, None::<ErrorContent>),
{
}

/// A spent key package of an account of this device is not remembered again,
/// however late a relay delivers it.
pub proof fn law_spent_package_is_not_remembered(
    app: AppContent,
    fetched: FetchedContent,
    i: int,
    now: i64,
)
    requires
        standing(app, fetched.account_id_hex) == Standing::Admitted(i),
        revision_liveness(
            app.accounts[i].lifecycle,
            fetched.key_package_ref_hex,
            fetched.key_package_event_id,
        ) == Ok::<bool, ErrorContent>(false),
    ensures
        with_live_package(app, fetched, now) == (app, Ok::<bool, ErrorContent>(false)),
{
}

/// An older key package never displaces a known one, in whatever order they came.
pub proof fn law_older_package_changes_nothing(
    app: AppContent,
    fetched: FetchedContent,
    account: Option<int>,
    now: i64,
)
    requires
        entry_named(app, fetched.account_id_hex, Gate::Given(account is Some)) is Ok,
        entry_named(app, fetched.account_id_hex, Gate::Given(account is Some))->Ok_0 is Some,
        ({
            let known = entry_named(
                app,
                fetched.account_id_hex,
                Gate::Given(account is Some),
            )->Ok_0->Some_0.key_package;
            known is Some && !replaces(
                fetched.created_at,
                fetched.key_package_event_id,
                known->0.created_at,
                known->0.key_package_event_id,
            )
        }),
    ensures
        with_admitted_package(app, fetched, account, now).0 == app,
{
}

} // verus!
