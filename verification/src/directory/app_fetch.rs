//! Fetching from relays: what to ask them, and what to make of their answers.

use crate::collections::{copy_list, Key};
use crate::directory::app_entry::{
    entry_named, normalize_account_ids, normalized_ids, parse_account_id_hex, relay_lists_named,
    source_relays_of, Gate,
};
use crate::directory::app_ingest::{
    follow_list_from_record, follow_list_of, freshness_at, with_live_package,
};
use crate::directory::app_remember::{
    with_follow_list, with_newer_profile, with_observed_lists, FetchedFollowList,
    FollowListContent,
};
use crate::directory::app_state::{slot_retired, standing, Admission, AppContent, MarmotApp};
use crate::directory::entry::{EntryContent, UserDirectoryRecord, UserProfileMetadata};
use crate::directory::key_packages::{
    decoding, fresh_choice, fresh_or_cached, fresh_or_cached_key_package,
    latest_fresh_key_package_from_records, outcome, selected, tag_value, FetchedContent,
    FetchedKeyPackage, KeyPackageEventRecord, KeyPackageMetadata, MetadataContent,
    PackageRecordContent,
};
use crate::directory::records::{
    fresh_lists, fresh_relay_list_status_from_records, refreshed, relay_list_status, replaces,
    AccountRelayListStatus, DirectoryEventQuery, DirectoryFreshness, DirectorySelection,
    EventRecordContent, QueryContent, RelayEventRecord, RelayListStatusContent,
    nostr_replaceable_coordinate_is_newer, KIND_MARMOT_INBOX_RELAY_LIST, KIND_MARMOT_KEY_PACKAGE,
    KIND_NIP65_RELAY_LIST, KIND_NOSTR_CONTACT_LIST,
};
use crate::error::{AppError, ErrorContent, MissingRelayListKind};
use crate::order::{extend_unique, push_unique_texts};
use crate::text::{join, parse_public_key, public_key_hex};
use vstd::prelude::*;

verus! {

/// How many events of each account one query for many asks for.
pub const EVENTS_PER_ACCOUNT: usize = 4;

/// Whether a fresh event of a kind came from an account.
pub open spec fn observed(
    records: Seq<EventRecordContent>,
    account: Seq<char>,
    kind: u64,
    freshness: DirectoryFreshness,
) -> bool {
    exists|i: int|
        0 <= i < records.len() && (#[trigger] records[i]).event.pubkey == account
            && records[i].event.kind == kind && freshness.fresh(records[i])
}

/// Whether a fresh event of a kind came from an account.
pub fn has_observed(
    records: &Vec<RelayEventRecord>,
    account_id_hex: &String,
    kind: u64,
    freshness: DirectoryFreshness,
) -> (found: bool)
    ensures
        found == observed(records.deep_view(), account_id_hex@, kind, freshness),
{
    let ghost all = records.deep_view();
    let mut i: usize = 0;
    while i < records.len()
        invariant
            i <= records@.len(),
            all == records.deep_view(),
            forall|j: int|
                0 <= j < i ==> !((#[trigger] all[j]).event.pubkey == account_id_hex@
                    && all[j].event.kind == kind && freshness.fresh(all[j])),
        decreases records.len() - i,
    {
        assert(all[i as int] == records@[i as int].deep_view());
        if records[i].event.pubkey.same(account_id_hex) && records[i].event.kind == kind
            && freshness.accepts(&records[i]) {
            return true;
        }
        i += 1;
    }
    false
}

/// The relays a status starts from: those it has, or else those that were asked.
pub open spec fn with_starting_relays(
    status: RelayListStatusContent,
    asked: Seq<Seq<char>>,
) -> RelayListStatusContent {
    if status.bootstrap_relays.len() == 0 {
        RelayListStatusContent { bootstrap_relays: asked, ..status }
    } else {
        status
    }
}

/// A status whose unobserved lists are those of another one, and that starts from
/// the relays of both.
pub open spec fn filled(
    status: RelayListStatusContent,
    known: RelayListStatusContent,
    observed_nip65: bool,
    observed_inbox: bool,
) -> RelayListStatusContent {
    RelayListStatusContent {
        nip65: if observed_nip65 {
            status.nip65
        } else {
            known.nip65
        },
        inbox: if observed_inbox {
            status.inbox
        } else {
            known.inbox
        },
        bootstrap_relays: extend_unique(status.bootstrap_relays, known.bootstrap_relays),
        ..status
    }
}

/// Fills the lists that were not observed.
pub fn fill_relay_lists(
    status: &mut AccountRelayListStatus,
    known: &AccountRelayListStatus,
    observed_nip65: bool,
    observed_inbox: bool,
)
    ensures
        final(status).deep_view() == filled(
            old(status).deep_view(),
            known.deep_view(),
            observed_nip65,
            observed_inbox,
        ),
{
    if !observed_nip65 {
        status.nip65 = known.nip65.duplicate();
    }
    if !observed_inbox {
        status.inbox = known.inbox.duplicate();
    }
    push_unique_texts(&mut status.bootstrap_relays, &known.bootstrap_relays);
}

/// The relay lists of an account after relays answered. What they did not answer
/// is filled from what is known.
pub open spec fn fetched_lists(
    app: AppContent,
    id: Seq<char>,
    records: Seq<EventRecordContent>,
    asked: Seq<Seq<char>>,
    freshness: DirectoryFreshness,
) -> Result<RelayListStatusContent, ErrorContent> {
    let status = relay_list_status(id, fresh_lists(id, records, freshness));
    let nip65 = observed(records, id, KIND_NIP65_RELAY_LIST, freshness);
    let inbox = observed(records, id, KIND_MARMOT_INBOX_RELAY_LIST, freshness);
    if nip65 && inbox {
        Ok(with_starting_relays(status, asked))
    } else {
        match relay_lists_named(app, id) {
            Err(error) => Err(error),
            Ok(known) => Ok(
                with_starting_relays(refreshed(filled(status, known, nip65, inbox)), asked),
            ),
        }
    }
}

/// The kind of list that a caller asks for by name.
pub open spec fn list_kind_named(name: Option<Seq<char>>) -> Result<Option<u64>, ErrorContent> {
    match name {
        None => Ok(None),
        Some(name) => if name == "nip65"@ {
            Ok(Some(KIND_NIP65_RELAY_LIST))
        } else if name == "inbox"@ {
            Ok(Some(KIND_MARMOT_INBOX_RELAY_LIST))
        } else {
            Err(ErrorContent::RelayDirectory("unsupported relay list type: "@ + name))
        },
    }
}

/// Reads which kind of list a caller asks for.
pub fn parse_list_kind(name: &Option<String>) -> (result: Result<Option<u64>, AppError>)
    ensures
        list_kind_named(name.deep_view()) == (match result {
            Ok(kind) => Ok(kind),
            Err(error) => Err(error.deep_view()),
        }),
{
    match name {
        None => Ok(None),
        Some(name) => if name.same(&"nip65".to_owned()) {
            Ok(Some(KIND_NIP65_RELAY_LIST))
        } else if name.same(&"inbox".to_owned()) {
            Ok(Some(KIND_MARMOT_INBOX_RELAY_LIST))
        } else {
            Err(AppError::RelayDirectory(join("unsupported relay list type: ", name.as_str())))
        },
    }
}

/// Whether the list that a caller asks for was observed; without one, either.
pub open spec fn has_required(kind: Option<u64>, nip65: bool, inbox: bool) -> bool {
    match kind {
        None => nip65 || inbox,
        Some(kind) => if kind == KIND_NIP65_RELAY_LIST {
            nip65
        } else if kind == KIND_MARMOT_INBOX_RELAY_LIST {
            inbox
        } else {
            false
        },
    }
}

/// The current relay lists of an account after relays answered, or nothing where
/// the list asked for was not among their answers.
pub open spec fn current_lists(
    app: AppContent,
    id: Seq<char>,
    records: Seq<EventRecordContent>,
    asked: Seq<Seq<char>>,
    kind: Option<u64>,
    freshness: DirectoryFreshness,
) -> Result<Option<RelayListStatusContent>, ErrorContent> {
    let status = relay_list_status(id, fresh_lists(id, records, freshness));
    let nip65 = observed(records, id, KIND_NIP65_RELAY_LIST, freshness);
    let inbox = observed(records, id, KIND_MARMOT_INBOX_RELAY_LIST, freshness);
    if !has_required(kind, nip65, inbox) {
        Ok(None)
    } else {
        match relay_lists_named(app, id) {
            Err(error) => Err(error),
            Ok(known) => Ok(
                Some(refreshed(with_starting_relays(filled(status, known, nip65, inbox), asked))),
            ),
        }
    }
}

/// What to do for the relay lists of an account before its key packages are
/// fetched.
#[derive(Debug)]
pub enum RelayListStep {
    UseKnown(AccountRelayListStatus),
    Fetch(Vec<String>),
}

/// The content of a [`RelayListStep`].
#[allow(inconsistent_fields)]
#[verifier::ext_equal]
pub enum RelayListStepContent {
    UseKnown(RelayListStatusContent),
    Fetch(Seq<Seq<char>>),
}

impl DeepView for RelayListStep {
    type V = RelayListStepContent;

    open spec fn deep_view(&self) -> RelayListStepContent {
        match self {
            RelayListStep::UseKnown(lists) => RelayListStepContent::UseKnown(lists.deep_view()),
            RelayListStep::Fetch(relays) => RelayListStepContent::Fetch(relays.deep_view()),
        }
    }
}

/// What to do for the relay lists of an account: ask the relays given; or use what
/// is known, unless no route is known and there are relays to ask.
pub open spec fn list_step(app: AppContent, id: Seq<char>, given: Seq<Seq<char>>) -> Result<
    RelayListStepContent,
    ErrorContent,
> {
    if given.len() > 0 {
        Ok(RelayListStepContent::Fetch(given))
    } else {
        match relay_lists_named(app, id) {
            Err(error) => Err(error),
            Ok(known) => if known.nip65.relays.len() == 0 && source_relays_of(
                app,
                Seq::empty(),
            ).len() > 0 {
                Ok(RelayListStepContent::Fetch(source_relays_of(app, Seq::empty())))
            } else {
                Ok(RelayListStepContent::UseKnown(known))
            },
        }
    }
}

/// Where to fetch key packages: from the account's usable relays, or else from the
/// directory's.
pub open spec fn package_sources(app: AppContent, usable: Seq<Seq<char>>) -> Result<
    Seq<Seq<char>>,
    ErrorContent,
> {
    if usable.len() > 0 {
        Ok(usable)
    } else if source_relays_of(app, Seq::empty()).len() > 0 {
        Ok(source_relays_of(app, Seq::empty()))
    } else {
        Err(ErrorContent::MissingRelayLists(seq![MissingRelayListKind::Nip65]))
    }
}

/// Whether a record is a key package in a removed slot.
pub open spec fn is_retired_record(
    app: AppContent,
    id: Seq<char>,
    record: PackageRecordContent,
) -> bool {
    &&& record.record.event.kind == KIND_MARMOT_KEY_PACKAGE
    &&& record.record.event.pubkey == id
    &&& slot_retired(
        app,
        id,
        match tag_value(record.record.event.tags, "d"@) {
            Some(slot) => slot,
            None => Seq::empty(),
        },
        standing(app, id) is Admitted,
    )
}

/// The records that are not key packages in removed slots.
pub open spec fn unretired(
    app: AppContent,
    id: Seq<char>,
    records: Seq<PackageRecordContent>,
) -> Seq<PackageRecordContent> {
    records.filter(|r: PackageRecordContent| !is_retired_record(app, id, r))
}

/// The key package that relays and the cache offer for an account.
pub open spec fn offered_package(
    app: AppContent,
    id: Seq<char>,
    records: Seq<PackageRecordContent>,
    cached: Option<EntryContent>,
    cached_metadata: Result<MetadataContent, Seq<char>>,
    freshness: DirectoryFreshness,
) -> Result<FetchedContent, ErrorContent> {
    match fresh_choice(id, unretired(app, id, records), freshness) {
        Err(error) => Err(error),
        Ok(choice) => fresh_or_cached(id, choice, cached, cached_metadata),
    }
}

/// The app after a key package was fetched, and the key package. One that cannot
/// be remembered as live is as good as none.
pub open spec fn with_fetched_package(
    app: AppContent,
    id: Seq<char>,
    records: Seq<PackageRecordContent>,
    lists: RelayListStatusContent,
    cached_metadata: Result<MetadataContent, Seq<char>>,
    now: u64,
) -> (AppContent, Result<FetchedContent, ErrorContent>) {
    match entry_named(app, id, Gate::Inspect) {
        Err(error) => (app, Err(error)),
        Ok(cached) => match offered_package(
            app,
            id,
            records,
            cached,
            cached_metadata,
            freshness_at(app, now),
        ) {
            Err(error) => (app, Err(error)),
            Ok(offered) => {
                let fetched = FetchedContent { relay_lists: lists, ..offered };
                let (after, remembered) = with_live_package(app, fetched, now as i64);
                match remembered {
                    Err(error) => (after, Err(error)),
                    Ok(true) => (after, Ok(fetched)),
                    Ok(false) => (after, Err(ErrorContent::MissingKeyPackage(id))),
                }
            },
        },
    }
}

impl MarmotApp {
    /// What to ask relays for the relay lists of an account: whom, where and what.
    pub fn relay_list_request(&self, account_id_hex: &str, bootstrap_relays: &Vec<String>)
        -> (result: Result<(String, Vec<String>), AppError>)
        ensures
            match (public_key_hex(account_id_hex@), result) {
                (Some(id), Ok((account, relays))) => account@ == id && relays.deep_view()
                    == source_relays_of(self@, bootstrap_relays.deep_view()),
                (None, Err(error)) => error.deep_view() == ErrorContent::InvalidPublicKey,
                _ => false,
            },
    {
        match parse_public_key(account_id_hex) {
            Some(id) => Ok((id, self.directory_source_relays(bootstrap_relays))),
            None => Err(AppError::InvalidPublicKey),
        }
    }

    /// Makes relay lists of what relays answered, and remembers them.
    pub fn finish_account_relay_list_fetch(
        &mut self,
        account_id_hex: &String,
        records: Vec<RelayEventRecord>,
        asked: &Vec<String>,
        now: u64,
    ) -> (result: Result<AccountRelayListStatus, AppError>)
        requires
            now <= i64::MAX,
        ensures
            ({
                let expected = fetched_lists(
                    old(self)@,
                    account_id_hex@,
                    records.deep_view(),
                    asked.deep_view(),
                    freshness_at(old(self)@, now),
                );
                observed_outcome(old(self)@, account_id_hex@, expected, now, final(self)@, outcome(result))
            }),
    {
        let freshness = self.directory_freshness(now);
        let observed_nip65 = has_observed(
            &records,
            account_id_hex,
            KIND_NIP65_RELAY_LIST,
            freshness,
        );
        let observed_inbox = has_observed(
            &records,
            account_id_hex,
            KIND_MARMOT_INBOX_RELAY_LIST,
            freshness,
        );
        let mut status = fresh_relay_list_status_from_records(
            account_id_hex.as_str(),
            records,
            freshness,
        ).value;
        if !observed_nip65 || !observed_inbox {
            let known = match self.account_relay_list_status_for_account_id(
                account_id_hex.as_str(),
            ) {
                Err(error) => return Err(error),
                Ok(known) => known,
            };
            fill_relay_lists(&mut status, &known, observed_nip65, observed_inbox);
            status.refresh();
        }
        if status.bootstrap_relays.len() == 0 {
            status.bootstrap_relays = copy_list(asked);
        }
        match self.remember_observed_directory_relay_lists(
            account_id_hex.as_str(),
            &status,
            now as i64,
        ) {
            Err(error) => Err(error),
            Ok(()) => Ok(status),
        }
    }

    /// Makes current relay lists of what relays answered, and remembers them;
    /// nothing where the list asked for was not among their answers.
    pub fn finish_current_relay_list_fetch(
        &mut self,
        account_id_hex: &String,
        records: Vec<RelayEventRecord>,
        asked: &Vec<String>,
        required_list_kind: Option<u64>,
        now: u64,
    ) -> (result: Result<Option<AccountRelayListStatus>, AppError>)
        requires
            now <= i64::MAX,
        ensures
            match current_lists(
                old(self)@,
                account_id_hex@,
                records.deep_view(),
                asked.deep_view(),
                required_list_kind,
                freshness_at(old(self)@, now),
            ) {
                Err(error) => result is Err && result->Err_0.deep_view() == error && final(self)@
                    == old(self)@,
                Ok(None) => result is Ok && result->Ok_0 is None && final(self)@ == old(self)@,
                Ok(Some(lists)) => match with_observed_lists(
                    old(self)@,
                    account_id_hex@,
                    lists,
                    now as i64,
                ) {
                    Err(error) => result is Err && result->Err_0.deep_view() == error
                        && final(self)@ == old(self)@,
                    Ok(after) => result is Ok && result->Ok_0.deep_view() == Some(lists)
                        && final(self)@ == after,
                },
            },
    {
        let freshness = self.directory_freshness(now);
        let observed_nip65 = has_observed(
            &records,
            account_id_hex,
            KIND_NIP65_RELAY_LIST,
            freshness,
        );
        let observed_inbox = has_observed(
            &records,
            account_id_hex,
            KIND_MARMOT_INBOX_RELAY_LIST,
            freshness,
        );
        let required = match required_list_kind {
            None => observed_nip65 || observed_inbox,
            Some(kind) => if kind == KIND_NIP65_RELAY_LIST {
                observed_nip65
            } else if kind == KIND_MARMOT_INBOX_RELAY_LIST {
                observed_inbox
            } else {
                false
            },
        };
        if !required {
            return Ok(None);
        }
        let mut status = fresh_relay_list_status_from_records(
            account_id_hex.as_str(),
            records,
            freshness,
        ).value;
        let known = match self.account_relay_list_status_for_account_id(account_id_hex.as_str()) {
            Err(error) => return Err(error),
            Ok(known) => known,
        };
        fill_relay_lists(&mut status, &known, observed_nip65, observed_inbox);
        if status.bootstrap_relays.len() == 0 {
            status.bootstrap_relays = copy_list(asked);
        }
        status.refresh();
        match self.remember_observed_directory_relay_lists(
            account_id_hex.as_str(),
            &status,
            now as i64,
        ) {
            Err(error) => Err(error),
            Ok(()) => Ok(Some(status)),
        }
    }

    /// What to do for the relay lists of an account before its key packages are
    /// fetched.
    pub fn key_package_list_step(&self, account_id_hex: &String, given: &Vec<String>) -> (result: Result<
        RelayListStep,
        AppError,
    >)
        ensures
            outcome(result) == list_step(self@, account_id_hex@, given.deep_view()),
    {
        if given.len() > 0 {
            return Ok(RelayListStep::Fetch(copy_list(given)));
        }
        let known = match self.account_relay_list_status_for_account_id(account_id_hex.as_str()) {
            Err(error) => return Err(error),
            Ok(known) => known,
        };
        let none: Vec<String> = Vec::new();
        assert(none.deep_view() =~= Seq::<Seq<char>>::empty());
        let sources = self.directory_source_relays(&none);
        if known.nip65.relays.len() == 0 && sources.len() > 0 {
            Ok(RelayListStep::Fetch(sources))
        } else {
            Ok(RelayListStep::UseKnown(known))
        }
    }

    /// Where to fetch key packages, given which of the account's relays may be used.
    pub fn key_package_sources(&self, usable: Vec<String>) -> (result: Result<
        Vec<String>,
        AppError,
    >)
        ensures
            outcome(result) == package_sources(self@, usable.deep_view()),
    {
        if usable.len() > 0 {
            return Ok(usable);
        }
        let none: Vec<String> = Vec::new();
        assert(none.deep_view() =~= Seq::<Seq<char>>::empty());
        let sources = self.directory_source_relays(&none);
        if sources.len() > 0 {
            return Ok(sources);
        }
        let mut missing: Vec<MissingRelayListKind> = Vec::new();
        missing.push(MissingRelayListKind::Nip65);
        assert(missing@ =~= seq![MissingRelayListKind::Nip65]);
        Err(AppError::MissingRelayLists(missing))
    }

    /// The newest key package that is not from the future nor in a removed slot.
    pub fn latest_fresh_non_retired_key_package_from_records(
        &self,
        account_id_hex: &String,
        records: Vec<KeyPackageEventRecord>,
        freshness: DirectoryFreshness,
    ) -> (result: Result<DirectorySelection<Option<FetchedKeyPackage>>, AppError>)
        ensures
            fresh_choice(
                account_id_hex@,
                unretired(self@, account_id_hex@, records.deep_view()),
                freshness,
            ) == (match result {
                Ok(selection) => Ok(selected(selection)),
                Err(error) => Err(error.deep_view()),
            }),
    {
        let ghost all = records.deep_view();
        let ghost items = records@;
        let ghost keep = |r: PackageRecordContent| !is_retired_record(self@, account_id_hex@, r);
        let admitted = match self.local_key_package_admission(account_id_hex) {
            Admission::Admitted(_) => true,
            _ => false,
        };
        let mut source = records;
        let mut kept: Vec<KeyPackageEventRecord> = Vec::new();
        let ghost mut done: int = 0;
        proof {
            reveal(Seq::filter);
            assert(all.take(0).filter(keep) =~= Seq::<PackageRecordContent>::empty());
            assert(kept.deep_view() =~= Seq::<PackageRecordContent>::empty());
            assert(items.skip(0) =~= items);
        }
        while source.len() > 0
            invariant
                0 <= done <= items.len(),
                done + source@.len() == items.len(),
                source@ == items.skip(done),
                all.len() == items.len(),
                admitted == (standing(self@, account_id_hex@) is Admitted),
                forall|j: int|
                    0 <= j < items.len() ==> all[j] == (#[trigger] items[j]).deep_view(),
                keep == (|r: PackageRecordContent| !is_retired_record(self@, account_id_hex@, r)),
                kept.deep_view() == all.take(done).filter(keep),
            decreases source.len(),
        {
            let record = source.remove(0);
            assert(record == items[done]);
            assert(source@ =~= items.skip(done + 1));
            let retired = if record.record.event.kind == KIND_MARMOT_KEY_PACKAGE
                && record.record.event.pubkey.same(account_id_hex) {
                let slot = match record.record.event.tag_value("d") {
                    Some(slot) => slot,
                    None => {
                        let empty = String::new();
                        assert(empty@ =~= Seq::<char>::empty());
                        empty
                    },
                };
                self.removed_slot_is_retired(account_id_hex, &slot, admitted)
            } else {
                false
            };
            proof {
                assert(all.take(done + 1).drop_last() =~= all.take(done));
                assert(all.take(done + 1).last() == record.deep_view());
                reveal(Seq::filter);
            }
            if !retired {
                let ghost before = kept.deep_view();
                kept.push(record);
                assert(kept.deep_view() =~= before.push(record.deep_view()));
            }
            proof {
                done = done + 1;
            }
        }
        assert(all.take(all.len() as int) =~= all);
        assert(all =~= records.deep_view());
        latest_fresh_key_package_from_records(account_id_hex.as_str(), kept, freshness)
    }

    /// The key package that relays and the cache offer for an account.
    /// `cached_metadata` is what decoding the cached one gave.
    pub fn choose_offered_package(
        &self,
        account_id_hex: &String,
        records: Vec<KeyPackageEventRecord>,
        cached: Option<UserDirectoryRecord>,
        cached_metadata: Result<KeyPackageMetadata, String>,
        freshness: DirectoryFreshness,
    ) -> (result: Result<FetchedKeyPackage, AppError>)
        ensures
            outcome(result) == offered_package(
                self@,
                account_id_hex@,
                records.deep_view(),
                cached.deep_view(),
                decoding(cached_metadata),
                freshness,
            ),
    {
        match self.latest_fresh_non_retired_key_package_from_records(
            account_id_hex,
            records,
            freshness,
        ) {
            Err(error) => Err(error),
            Ok(selection) => fresh_or_cached_key_package(
                account_id_hex.as_str(),
                selection,
                cached,
                cached_metadata,
            ),
        }
    }

    /// Makes a key package of what relays answered, and remembers it.
    pub fn finish_key_package_fetch(
        &mut self,
        account_id_hex: &String,
        records: Vec<KeyPackageEventRecord>,
        relay_lists: &AccountRelayListStatus,
        cached_metadata: Result<KeyPackageMetadata, String>,
        now: u64,
    ) -> (result: Result<FetchedKeyPackage, AppError>)
        requires
            now <= i64::MAX,
        ensures
            (final(self)@, outcome(result)) == with_fetched_package(
                old(self)@,
                account_id_hex@,
                records.deep_view(),
                relay_lists.deep_view(),
                decoding(cached_metadata),
                now,
            ),
    {
        let cached = match self.directory_entry_for_account_id(account_id_hex.as_str()) {
            Err(error) => return Err(error),
            Ok(cached) => cached,
        };
        let freshness = self.directory_freshness(now);
        let mut fetched = match self.choose_offered_package(
            account_id_hex,
            records,
            cached,
            cached_metadata,
            freshness,
        ) {
            Err(error) => return Err(error),
            Ok(fetched) => fetched,
        };
        fetched.relay_lists = relay_lists.duplicate();
        match self.remember_directory_key_package_if_live(&fetched, now as i64) {
            Err(error) => Err(error),
            Ok(true) => Ok(fetched),
            Ok(false) => Err(AppError::MissingKeyPackage(account_id_hex.clone())),
        }
    }
}

/// What remembering observed relay lists does with them.
pub open spec fn observed_outcome(
    before: AppContent,
    id: Seq<char>,
    lists: Result<RelayListStatusContent, ErrorContent>,
    now: u64,
    after: AppContent,
    result: Result<RelayListStatusContent, ErrorContent>,
) -> bool {
    match lists {
        Err(error) => result == Err::<RelayListStatusContent, ErrorContent>(error) && after
            == before,
        Ok(lists) => match with_observed_lists(before, id, lists, now as i64) {
            Err(error) => result == Err::<RelayListStatusContent, ErrorContent>(error) && after
                == before,
            Ok(done) => result == Ok::<RelayListStatusContent, ErrorContent>(lists) && after
                == done,
        },
    }
}

/// The query for the events of one kind by many accounts.
pub fn account_events_query(account_ids: &Vec<String>, kind: u64) -> (result: Result<
    DirectoryEventQuery,
    AppError,
>)
    requires
        account_ids@.len() * EVENTS_PER_ACCOUNT <= usize::MAX,
    ensures
        match (crate::directory::app_entry::parsed_ids(account_ids.deep_view()), result) {
            (Some(ids), Ok(query)) => query.deep_view() == (QueryContent {
                kind,
                authors: ids,
                limit: events_limit(account_ids@.len()) as usize,
            }),
            (None, Err(error)) => error.deep_view() == ErrorContent::InvalidPublicKey,
            _ => false,
        },
{
    let ghost all = account_ids.deep_view();
    let mut parsed: Vec<String> = Vec::new();
    let mut i: usize = 0;
    assert(parsed.deep_view() =~= Seq::<Seq<char>>::empty());
    assert(all.take(0) =~= Seq::<Seq<char>>::empty());
    while i < account_ids.len()
        invariant
            i <= account_ids@.len(),
            all == account_ids.deep_view(),
            crate::directory::app_entry::parsed_ids(all.take(i as int)) == Some(
                parsed.deep_view(),
            ),
        decreases account_ids.len() - i,
    {
        assert(all.take(i + 1).drop_last() =~= all.take(i as int));
        assert(all.take(i + 1).last() == account_ids@[i as int]@);
        match parse_account_id_hex(account_ids[i].as_str()) {
            Ok(id) => {
                let ghost before = parsed.deep_view();
                parsed.push(id);
                assert(parsed.deep_view() =~= before.push(id@));
            },
            Err(error) => {
                proof {
                    crate::directory::app_entry::lemma_parsed_prefix(all, i + 1);
                }
                return Err(error);
            },
        }
        i += 1;
    }
    assert(all.take(all.len() as int) =~= all);
    let limit: usize = if account_ids.len() == 0 {
        1
    } else {
        account_ids.len() * EVENTS_PER_ACCOUNT
    };
    Ok(DirectoryEventQuery::new(kind, parsed, limit))
}

/// How many events a query for many accounts asks for.
pub open spec fn events_limit(accounts: nat) -> nat {
    if accounts == 0 {
        1
    } else {
        accounts * EVENTS_PER_ACCOUNT as nat
    }
}

impl MarmotApp {
    /// Remembers an account's fetched profile where it is newer than the known one.
    /// Without one there is nothing to remember.
    pub fn finish_profile_fetch(
        &mut self,
        account_id_hex: &String,
        profile: Option<UserProfileMetadata>,
        now: i64,
    ) -> (result: Result<Option<UserProfileMetadata>, AppError>)
        ensures
            match profile {
                None => result is Ok && result->Ok_0 is None && final(self)@ == old(self)@,
                Some(profile) => match with_newer_profile(
                    old(self)@,
                    account_id_hex@,
                    profile.deep_view(),
                    now,
                ) {
                    Ok(after) => result is Ok && result->Ok_0.deep_view() == Some(
                        profile.deep_view(),
                    ) && final(self)@ == after,
                    Err(error) => result is Err && result->Err_0.deep_view() == error
                        && final(self)@ == old(self)@,
                },
            },
    {
        match profile {
            None => Ok(None),
            Some(profile) => match self.remember_directory_profile_if_newer(
                account_id_hex,
                &profile,
                now,
            ) {
                Ok(()) => Ok(Some(profile)),
                Err(error) => Err(error),
            },
        }
    }
}

/// Whether a record is a fresh contact list of an account.
pub open spec fn is_contact_list(
    record: EventRecordContent,
    account: Seq<char>,
    freshness: DirectoryFreshness,
) -> bool {
    record.event.kind == KIND_NOSTR_CONTACT_LIST && record.event.pubkey == account
        && freshness.fresh(record)
}

/// The fresh contact list of an account that replaces the others.
pub open spec fn latest_contact_list(
    records: Seq<EventRecordContent>,
    account: Seq<char>,
    freshness: DirectoryFreshness,
) -> Option<EventRecordContent>
    decreases records.len(),
{
    if records.len() == 0 {
        None
    } else {
        let before = latest_contact_list(records.drop_last(), account, freshness);
        let record = records.last();
        if is_contact_list(record, account, freshness) && (before is None || replaces(
            record.event.created_at,
            record.event.id,
            before->0.event.created_at,
            before->0.event.id,
        )) {
            Some(record)
        } else {
            before
        }
    }
}

/// Reads the fresh contact list of an account that replaces the others.
pub fn latest_follow_list_from_records(
    account_id_hex: &String,
    records: &Vec<RelayEventRecord>,
    freshness: DirectoryFreshness,
) -> (list: Option<FetchedFollowList>)
    ensures
        list.deep_view() == (match latest_contact_list(
            records.deep_view(),
            account_id_hex@,
            freshness,
        ) {
            Some(record) => Some(follow_list_of(record)),
            None => None,
        }),
{
    let ghost all = records.deep_view();
    let mut best: Option<usize> = None;
    let mut i: usize = 0;
    assert(all.take(0) =~= Seq::<EventRecordContent>::empty());
    while i < records.len()
        invariant
            i <= records@.len(),
            all == records.deep_view(),
            match best {
                None => latest_contact_list(
                    all.take(i as int),
                    account_id_hex@,
                    freshness,
                ) is None,
                Some(b) => b < i && latest_contact_list(
                    all.take(i as int),
                    account_id_hex@,
                    freshness,
                ) == Some(all[b as int]),
            },
        decreases records.len() - i,
    {
        assert(all.take(i + 1).drop_last() =~= all.take(i as int));
        assert(all.take(i + 1).last() == records@[i as int].deep_view());
        assert(all[i as int] == records@[i as int].deep_view());
        let record = &records[i];
        if record.event.kind == KIND_NOSTR_CONTACT_LIST && record.event.pubkey.same(account_id_hex)
            && freshness.accepts(record) {
            let newer = match best {
                None => true,
                Some(b) => {
                    assert(all[b as int] == records@[b as int].deep_view());
                    nostr_replaceable_coordinate_is_newer(
                        record.event.created_at,
                        record.event.id.as_str(),
                        records[b].event.created_at,
                        records[b].event.id.as_str(),
                    )
                },
            };
            if newer {
                best = Some(i);
            }
        }
        i += 1;
    }
    assert(all.take(all.len() as int) =~= all);
    match best {
        None => None,
        Some(b) => {
            assert(all[b as int] == records@[b as int].deep_view());
            Some(follow_list_from_record(&records[b]))
        },
    }
}

/// The follows that are known of an account, or an empty list that is not known to
/// be one.
pub open spec fn cached_or_unknown(
    cached: Option<EntryContent>,
    asked: Seq<Seq<char>>,
) -> FollowListContent {
    match cached {
        Some(entry) => FollowListContent {
            follows: entry.follows,
            source_relays: entry.follow_source_relays,
        },
        None => FollowListContent { follows: Seq::empty(), source_relays: asked },
    }
}

/// Falls back to the follows that are known of an account.
pub fn cached_or_unknown_follow_list(
    cached: Option<UserDirectoryRecord>,
    source_relays: &Vec<String>,
) -> (list: FetchedFollowList)
    ensures
        list.deep_view() == cached_or_unknown(cached.deep_view(), source_relays.deep_view()),
{
    match cached {
        Some(entry) => FetchedFollowList {
            follows: entry.follows,
            source_relays: entry.follow_source_relays,
        },
        None => {
            let follows: Vec<String> = Vec::new();
            assert(follows.deep_view() =~= Seq::<Seq<char>>::empty());
            FetchedFollowList { follows, source_relays: copy_list(source_relays) }
        },
    }
}

/// The contact list of an account after relays answered. Without an answer the
/// known follows stay.
pub open spec fn fetched_follows(
    app: AppContent,
    id: Seq<char>,
    records: Seq<EventRecordContent>,
    asked: Seq<Seq<char>>,
    freshness: DirectoryFreshness,
) -> Result<FollowListContent, ErrorContent> {
    match latest_contact_list(records, id, freshness) {
        Some(record) => Ok(follow_list_of(record)),
        None => match entry_named(app, id, Gate::Inspect) {
            Err(error) => Err(error),
            Ok(cached) => Ok(cached_or_unknown(cached, asked)),
        },
    }
}

impl MarmotApp {
    /// Makes a contact list of what relays answered. Without an answer the known
    /// follows stay.
    pub fn finish_follow_list_fetch(
        &self,
        account_id_hex: &String,
        records: &Vec<RelayEventRecord>,
        asked: &Vec<String>,
        now: u64,
    ) -> (result: Result<FetchedFollowList, AppError>)
        ensures
            outcome(result) == fetched_follows(
                self@,
                account_id_hex@,
                records.deep_view(),
                asked.deep_view(),
                freshness_at(self@, now),
            ),
    {
        let freshness = self.directory_freshness(now);
        match latest_follow_list_from_records(account_id_hex, records, freshness) {
            Some(list) => Ok(list),
            None => match self.directory_entry_for_account_id(account_id_hex.as_str()) {
                Err(error) => Err(error),
                Ok(cached) => Ok(cached_or_unknown_follow_list(cached, asked)),
            },
        }
    }

    /// Remembers the current contact list that relays answered with, and returns
    /// whom it names; nothing where they answered with none.
    pub fn finish_current_follow_list_fetch(
        &mut self,
        account_id_hex: &String,
        records: &Vec<RelayEventRecord>,
        now: u64,
    ) -> (result: Result<Option<Vec<String>>, AppError>)
        requires
            now <= i64::MAX,
        ensures
            match latest_contact_list(
                records.deep_view(),
                account_id_hex@,
                freshness_at(old(self)@, now),
            ) {
                None => result is Ok && result->Ok_0 is None && final(self)@ == old(self)@,
                Some(record) => {
                    let list = follow_list_of(record);
                    let expected = with_follow_list(
                        old(self)@,
                        account_id_hex@,
                        list,
                        now as i64,
                    );
                    &&& final(self)@ == expected.0
                    &&& match expected.1 {
                        None => result is Ok && result->Ok_0.deep_view() == Some(list.follows),
                        Some(error) => result is Err && result->Err_0.deep_view() == error,
                    }
                },
            },
    {
        let freshness = self.directory_freshness(now);
        match latest_follow_list_from_records(account_id_hex, records, freshness) {
            None => Ok(None),
            Some(list) => match self.remember_directory_follow_list(
                account_id_hex,
                &list,
                now as i64,
            ) {
                Err(error) => Err(error),
                Ok(()) => Ok(Some(list.follows)),
            },
        }
    }
}

/// Which relays a profile falls back to: those to start from, or the default ones.
pub open spec fn profile_fallback(lists: RelayListStatusContent) -> Seq<Seq<char>> {
    if lists.bootstrap_relays.len() == 0 {
        lists.default_relays
    } else {
        lists.bootstrap_relays
    }
}

/// Which relays a profile falls back to.
pub fn profile_fallback_relays(lists: &AccountRelayListStatus) -> (relays: Vec<String>)
    ensures
        relays.deep_view() == profile_fallback(lists.deep_view()),
{
    if lists.bootstrap_relays.len() == 0 {
        copy_list(&lists.default_relays)
    } else {
        copy_list(&lists.bootstrap_relays)
    }
}

/// Where to publish a profile, given which of the account's published relays and of
/// its fallback relays may be used.
pub fn account_profile_publish_endpoints(published: Vec<String>, fallback: Vec<String>) -> (result: Result<
    Vec<String>,
    AppError,
>)
    ensures
        outcome(result) == (if published@.len() > 0 {
            Ok(published.deep_view())
        } else if fallback@.len() > 0 {
            Ok(fallback.deep_view())
        } else {
            Err(
                ErrorContent::RelayDirectory(
                    "account relay configuration has no usable profile publication endpoints"@,
                ),
            )
        }),
{
    if published.len() > 0 {
        return Ok(published);
    }
    if fallback.len() == 0 {
        return Err(
            AppError::RelayDirectory(
                "account relay configuration has no usable profile publication endpoints".to_owned(),
            ),
        );
    }
    Ok(fallback)
}

/// The tags of a contact list.
pub open spec fn contact_tags(follows: Seq<Seq<char>>) -> Seq<Seq<Seq<char>>> {
    follows.map_values(|id: Seq<char>| seq!["p"@, id])
}

/// The follows of a contact list in canonical form, and the tags that publish it.
pub fn contact_list_tags(follows: &Vec<String>) -> (result: Result<
    (Vec<String>, Vec<Vec<String>>),
    AppError,
>)
    ensures
        match (normalized_ids(follows.deep_view()), result) {
            (Ok(ids), Ok((listed, tags))) => listed.deep_view() == ids && tags.deep_view()
                == contact_tags(ids),
            (Err(expected), Err(error)) => error.deep_view() == expected,
            _ => false,
        },
{
    let ids = match normalize_account_ids(follows) {
        Err(error) => return Err(error),
        Ok(ids) => ids,
    };
    let ghost all = ids.deep_view();
    let mut tags: Vec<Vec<String>> = Vec::new();
    let mut i: usize = 0;
    while i < ids.len()
        invariant
            i <= ids@.len(),
            all == ids.deep_view(),
            tags@.len() == i,
            forall|j: int|
                0 <= j < i ==> (#[trigger] tags@[j]).deep_view() == seq!["p"@, all[j]],
        decreases ids.len() - i,
    {
        let mut tag: Vec<String> = Vec::new();
        tag.push("p".to_owned());
        tag.push(ids[i].clone());
        assert(tag.deep_view() =~= seq!["p"@, all[i as int]]);
        tags.push(tag);
        i += 1;
    }
    assert(tags.deep_view() =~= contact_tags(all));
    Ok((ids, tags))
}

/// No answer about an account's follows is not an answer that it follows nobody:
/// what is known of them stays.
pub proof fn law_silence_keeps_known_follows(
    app: AppContent,
    id: Seq<char>,
    asked: Seq<Seq<char>>,
    freshness: DirectoryFreshness,
    entry: EntryContent,
)
    requires
        entry_named(app, id, Gate::Inspect) == Ok::<Option<EntryContent>, ErrorContent>(
            Some(entry),
        ),
    ensures
        fetched_follows(app, id, Seq::empty(), asked, freshness) == Ok::<
            FollowListContent,
            ErrorContent,
        >(FollowListContent { follows: entry.follows, source_relays: entry.follow_source_relays }),
{
}

/// Lists that relays did not answer for stay as they were known.
pub proof fn law_silence_keeps_known_lists(
    app: AppContent,
    id: Seq<char>,
    asked: Seq<Seq<char>>,
    freshness: DirectoryFreshness,
    known: RelayListStatusContent,
)
    requires
        relay_lists_named(app, id) == Ok::<RelayListStatusContent, ErrorContent>(known),
    ensures
        fetched_lists(app, id, Seq::empty(), asked, freshness) is Ok,
        fetched_lists(app, id, Seq::empty(), asked, freshness)->Ok_0.nip65 == known.nip65,
        fetched_lists(app, id, Seq::empty(), asked, freshness)->Ok_0.inbox == known.inbox,
{
}

/// A key package that is returned by a fetch is remembered as the live one.
pub proof fn law_fetched_package_is_remembered(
    app: AppContent,
    id: Seq<char>,
    records: Seq<PackageRecordContent>,
    lists: RelayListStatusContent,
    cached_metadata: Result<MetadataContent, Seq<char>>,
    now: u64,
)
    requires
        with_fetched_package(app, id, records, lists, cached_metadata, now).1 is Ok,
    ensures
        ({
            let (after, fetched) = with_fetched_package(
                app,
                id,
                records,
                lists,
                cached_metadata,
                now,
            );
            with_live_package(app, fetched->Ok_0, now as i64) == (
                after,
                Ok::<bool, ErrorContent>(true),
            )
        }),
{
}

} // verus!
