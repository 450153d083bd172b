//! Reading directory entries: from the caches of the signed-in accounts and from
//! the storage they share.

use crate::collections::{copy_list, Key};
use crate::directory::app_state::{
    account_position, lemma_account_position, local_account, signs_now, slot_retired, standing,
    AccountContent, Admission, AppContent, MarmotApp,
};
use crate::directory::cache::{closed_error, find};
use crate::directory::entry::{
    DirectoryKeyPackageContent, EntryContent, ProfileContent, UserDirectoryRecord,
    UserProfileMetadata,
};
use crate::directory::key_packages::outcome;
use crate::directory::records::{
    no_relay_lists, refreshed, AccountRelayListStatus, RelayListStatusContent,
};
use crate::error::{AppError, ErrorContent};
use crate::order::{
    ascending_set, is_ascending, lemma_ascending_set, lemma_ascending_set_exists, sort_dedup,
};
use crate::text::{
    decimal, decimal_text, join, npub_of, npub_text, parse_public_key, public_key_hex,
};
use vstd::prelude::*;

verus! {

/// How a removal of a whole account is judged: by looking whether a session of it
/// is admitted, or by what the caller already knows of that.
#[derive(Clone, Copy, Debug, PartialEq, Eq, Structural)]
pub enum Gate {
    Inspect,
    Given(bool),
}

/// Whether a session of an identity counts as admitted.
pub open spec fn admits(app: AppContent, id: Seq<char>, gate: Gate) -> bool {
    match gate {
        Gate::Inspect => standing(app, id) is Admitted,
        Gate::Given(admitted) => admitted,
    }
}

/// The canonical forms of identities, where all of them are identities.
pub open spec fn parsed_ids(ids: Seq<Seq<char>>) -> Option<Seq<Seq<char>>>
    decreases ids.len(),
{
    if ids.len() == 0 {
        Some(Seq::empty())
    } else {
        match (parsed_ids(ids.drop_last()), public_key_hex(ids.last())) {
            (Some(before), Some(id)) => Some(before.push(id)),
            _ => None,
        }
    }
}

/// Whether a text, where it names an identity at all, names one whose canonical form
/// names itself. Of every text that is parsed, parsing shows it.
pub open spec fn is_written_form(text: Seq<char>) -> bool {
    public_key_hex(text) matches Some(id) ==> public_key_hex(id) == Some(id)
}

/// Reads an identity in any of its forms.
pub fn parse_account_id_hex(text: &str) -> (result: Result<String, AppError>)
    ensures
        outcome(result) == parsed_id(text@),
        is_written_form(text@),
        result matches Ok(id) ==> crate::text::is_hex_text(id@) && id@.len() == 64
            && public_key_hex(id@) == Some(id@),
{
    match parse_public_key(text) {
        Some(id) => Ok(id),
        None => Err(AppError::InvalidPublicKey),
    }
}

pub open spec fn parsed_id(text: Seq<char>) -> Result<Seq<char>, ErrorContent> {
    match public_key_hex(text) {
        Some(id) => Ok(id),
        None => Err(ErrorContent::InvalidPublicKey),
    }
}

/// The canonical forms of identities, ascending and without repetition.
pub open spec fn normalized_ids(ids: Seq<Seq<char>>) -> Result<Seq<Seq<char>>, ErrorContent> {
    match parsed_ids(ids) {
        Some(parsed) => Ok(ascending_set(parsed)),
        None => Err(ErrorContent::InvalidPublicKey),
    }
}

/// One identity that cannot be read spoils every longer list.
pub proof fn lemma_parsed_prefix(ids: Seq<Seq<char>>, n: int)
    requires
        0 <= n <= ids.len(),
        parsed_ids(ids.take(n)) is None,
    ensures
        parsed_ids(ids) is None,
    decreases ids.len() - n,
{
    if n < ids.len() {
        assert(ids.take(n + 1).drop_last() =~= ids.take(n));
        lemma_parsed_prefix(ids, n + 1);
    } else {
        assert(ids.take(n) =~= ids);
    }
}

/// Whether every identity is in its canonical form.
pub open spec fn all_canonical(ids: Seq<Seq<char>>) -> bool {
    forall|i: int| 0 <= i < ids.len() ==> public_key_hex(#[trigger] ids[i]) == Some(ids[i])
}

/// Canonical identities stay as they are.
proof fn lemma_parsed_canonical(ids: Seq<Seq<char>>)
    requires
        all_canonical(ids),
    ensures
        parsed_ids(ids) == Some(ids),
    decreases ids.len(),
{
    if ids.len() > 0 {
        assert forall|i: int| 0 <= i < ids.drop_last().len() implies public_key_hex(
            #[trigger] ids.drop_last()[i],
        ) == Some(ids.drop_last()[i]) by {
            assert(ids.drop_last()[i] == ids[i]);
        }
        lemma_parsed_canonical(ids.drop_last());
        assert(ids.drop_last().push(ids[ids.len() - 1]) =~= ids);
    } else {
        assert(ids =~= Seq::<Seq<char>>::empty());
    }
}

/// Canonical identities stay canonical when they are put in order, and ordering them
/// again changes nothing.
proof fn lemma_ordered_canonical(ids: Seq<Seq<char>>)
    requires
        all_canonical(ids),
    ensures
        normalized_ids(ascending_set(ids)) == Ok::<Seq<Seq<char>>, ErrorContent>(
            ascending_set(ids),
        ),
{
    let out = ascending_set(ids);
    lemma_ascending_set_exists(ids);
    assert forall|i: int| 0 <= i < out.len() implies public_key_hex(#[trigger] out[i]) == Some(
        out[i],
    ) by {
        assert(out.contains(out[i]));
        assert(ids.contains(out[i]));
        let k = choose|k: int| 0 <= k < ids.len() && ids[k] == out[i];
        assert(public_key_hex(ids[k]) == Some(ids[k]));
    }
    lemma_parsed_canonical(out);
    lemma_ascending_set(out, out);
}

/// Whether an entry is in the form that it is shown in: its identity canonical and
/// with its bech32 form, its follows canonical, its follows and the relays they came
/// from ascending and listed once.
pub open spec fn is_canonical(entry: EntryContent) -> bool {
    &&& public_key_hex(entry.account_id_hex) == Some(entry.account_id_hex)
    &&& npub_text(entry.account_id_hex) == Some(entry.npub)
    &&& normalized_ids(entry.follows) == Ok::<Seq<Seq<char>>, ErrorContent>(entry.follows)
    &&& is_ascending(entry.follows)
    &&& is_ascending(entry.follow_source_relays)
}

/// Brings identities to their canonical forms, ascending and without repetition. What
/// comes out is not changed by doing so again.
pub fn normalize_account_ids(ids: &Vec<String>) -> (result: Result<Vec<String>, AppError>)
    ensures
        outcome(result) == normalized_ids(ids.deep_view()),
        result matches Ok(out) ==> is_ascending(out.deep_view()) && normalized_ids(
            out.deep_view(),
        ) == Ok::<Seq<Seq<char>>, ErrorContent>(out.deep_view()),
{
    let ghost all = ids.deep_view();
    let mut parsed: Vec<String> = Vec::new();
    let mut i: usize = 0;
    assert(parsed.deep_view() =~= Seq::<Seq<char>>::empty());
    assert(all.take(0) =~= Seq::<Seq<char>>::empty());
    while i < ids.len()
        invariant
            i <= ids@.len(),
            all == ids.deep_view(),
            parsed_ids(all.take(i as int)) == Some(parsed.deep_view()),
            all_canonical(parsed.deep_view()),
        decreases ids.len() - i,
    {
        assert(all.take(i + 1).drop_last() =~= all.take(i as int));
        assert(all.take(i + 1).last() == ids@[i as int]@);
        match parse_public_key(ids[i].as_str()) {
            Some(id) => {
                let ghost before = parsed.deep_view();
                parsed.push(id);
                assert(parsed.deep_view() =~= before.push(id@));
                assert forall|k: int| 0 <= k < parsed.deep_view().len() implies public_key_hex(
                    #[trigger] parsed.deep_view()[k],
                ) == Some(parsed.deep_view()[k]) by {
                    if k < before.len() {
                        assert(public_key_hex(before[k]) == Some(before[k]));
                    }
                }
            },
            None => {
                proof {
                    lemma_parsed_prefix(all, i + 1);
                }
                return Err(AppError::InvalidPublicKey);
            },
        }
        i += 1;
    }
    assert(all.take(all.len() as int) =~= all);
    proof {
        lemma_ascending_set_exists(parsed.deep_view());
        lemma_ordered_canonical(parsed.deep_view());
    }
    Ok(sort_dedup(parsed))
}

/// The relay lists of an identity. Those of an account of this device keep the
/// route that the account authored, whatever else was observed.
pub open spec fn routed(app: AppContent, id: Seq<char>, lists: RelayListStatusContent)
    -> RelayListStatusContent {
    let i = account_position(app.accounts, id);
    if 0 <= i < app.accounts.len() && app.accounts[i].nip65_generation is Some {
        refreshed(
            RelayListStatusContent { nip65: app.accounts[i].nip65_generation->0, ..lists },
        )
    } else {
        lists
    }
}

/// A stored entry as it is shown: canonical, without a removed key package, with
/// this device's account and its own route.
pub open spec fn hydrated(app: AppContent, entry: EntryContent, gate: Gate) -> Result<
    EntryContent,
    ErrorContent,
> {
    match public_key_hex(entry.account_id_hex) {
        None => Err(ErrorContent::InvalidPublicKey),
        Some(id) => match (npub_text(id), normalized_ids(entry.follows)) {
            (Some(npub), Ok(follows)) => Ok(
                EntryContent {
                    account_id_hex: id,
                    npub,
                    local_account: local_account(app, id),
                    profile: entry.profile,
                    follows,
                    follow_source_relays: ascending_set(entry.follow_source_relays),
                    relay_lists: routed(app, id, entry.relay_lists),
                    key_package: live_package(app, id, entry.key_package, gate),
                },
            ),
            _ => Err(ErrorContent::InvalidPublicKey),
        },
    }
}

/// A key package, unless its slot was removed.
pub open spec fn live_package(
    app: AppContent,
    id: Seq<char>,
    package: Option<DirectoryKeyPackageContent>,
    gate: Gate,
) -> Option<DirectoryKeyPackageContent> {
    if package is Some && slot_retired(
        app,
        id,
        package->0.key_package_id,
        admits(app, id, gate),
    ) {
        None
    } else {
        package
    }
}

/// How recent an entry is: as its profile or its key package, whichever is later.
pub open spec fn recency(entry: EntryContent) -> u64 {
    let profile = match entry.profile {
        Some(profile) => profile.created_at,
        None => 0,
    };
    let package = match entry.key_package {
        Some(package) => package.created_at,
        None => 0,
    };
    if profile >= package {
        profile
    } else {
        package
    }
}

/// The more recent of two entries; the first one where neither is.
pub open spec fn newer_entry(first: Option<EntryContent>, second: Option<EntryContent>) -> Option<
    EntryContent,
> {
    match (first, second) {
        (Some(first), Some(second)) => if recency(second) > recency(first) {
            Some(second)
        } else {
            Some(first)
        },
        (Some(first), None) => Some(first),
        (None, second) => second,
    }
}

fn entry_recency(entry: &UserDirectoryRecord) -> (at: u64)
    ensures
        at == recency(entry.deep_view()),
{
    let profile: u64 = match &entry.profile {
        Some(profile) => profile.created_at,
        None => 0,
    };
    let package: u64 = match &entry.key_package {
        Some(package) => package.created_at,
        None => 0,
    };
    if profile >= package {
        profile
    } else {
        package
    }
}

/// Chooses the more recent of two entries.
pub fn select_newer_directory_entry(
    first: Option<UserDirectoryRecord>,
    second: Option<UserDirectoryRecord>,
) -> (chosen: Option<UserDirectoryRecord>)
    ensures
        chosen.deep_view() == newer_entry(first.deep_view(), second.deep_view()),
{
    match (first, second) {
        (Some(first), Some(second)) => if entry_recency(&second) > entry_recency(&first) {
            Some(second)
        } else {
            Some(first)
        },
        (Some(first), None) => Some(first),
        (None, second) => second,
    }
}

/// The first cached entry of an identity, in the order of the signed-in accounts.
pub open spec fn cached_entry(accounts: Seq<AccountContent>, id: Seq<char>) -> Result<
    Option<EntryContent>,
    ErrorContent,
>
    decreases accounts.len(),
{
    if accounts.len() == 0 {
        Ok(None)
    } else if !signs_now(accounts[0]) {
        cached_entry(accounts.drop_first(), id)
    } else if accounts[0].cache.closed {
        Err(closed_error())
    } else if accounts[0].cache.users.dom().contains(id) {
        Ok(Some(accounts[0].cache.users[id]))
    } else {
        cached_entry(accounts.drop_first(), id)
    }
}

/// An optional stored entry as it is shown.
pub open spec fn hydrated_option(app: AppContent, entry: Option<EntryContent>, gate: Gate)
    -> Result<Option<EntryContent>, ErrorContent> {
    match entry {
        None => Ok(None),
        Some(entry) => match hydrated(app, entry, gate) {
            Ok(entry) => Ok(Some(entry)),
            Err(error) => Err(error),
        },
    }
}

/// What the directory knows of an identity.
pub open spec fn entry_of(app: AppContent, id: Seq<char>, gate: Gate) -> Result<
    Option<EntryContent>,
    ErrorContent,
> {
    match cached_entry(app.accounts, id) {
        Err(error) => Err(error),
        Ok(cached) => match hydrated_option(app, cached, gate) {
            Err(error) => Err(error),
            Ok(cached) => match hydrated_option(app, find(app.shared, id), gate) {
                Err(error) => Err(error),
                Ok(shared) => Ok(newer_entry(cached, shared)),
            },
        },
    }
}

/// What the directory knows of an identity in any of its forms.
pub open spec fn entry_named(app: AppContent, text: Seq<char>, gate: Gate) -> Result<
    Option<EntryContent>,
    ErrorContent,
> {
    match public_key_hex(text) {
        None => Err(ErrorContent::InvalidPublicKey),
        Some(id) => entry_of(app, id, gate),
    }
}

/// The entry of an identity that nothing is known of. The identity is written in
/// bech32 where it can be.
pub open spec fn empty_entry(app: AppContent, id: Seq<char>) -> EntryContent {
    EntryContent {
        account_id_hex: id,
        npub: lossy_npub(id),
        local_account: local_account(app, id),
        profile: None,
        follows: Seq::empty(),
        follow_source_relays: Seq::empty(),
        relay_lists: no_relay_lists(),
        key_package: None,
    }
}

pub open spec fn lossy_npub(id: Seq<char>) -> Seq<char> {
    match npub_text(id) {
        Some(npub) => npub,
        None => id,
    }
}

/// Writes an identity in bech32 where it can be.
pub fn npub_for_account_id_lossy(id: &str) -> (npub: String)
    ensures
        npub@ == lossy_npub(id@),
{
    match npub_of(id) {
        Some(npub) => npub,
        None => id.to_owned(),
    }
}

/// What is shown of an identity in a list, from what is cached.
#[derive(Debug)]
pub struct CachedIdentityProjection {
    pub requested_id: String,
    pub account_id_hex: Option<String>,
    pub profile: Option<UserProfileMetadata>,
    pub local_label: Option<String>,
}

/// The content of a [`CachedIdentityProjection`].
#[verifier::ext_equal]
pub struct ProjectionContent {
    pub requested_id: Seq<char>,
    pub account_id_hex: Option<Seq<char>>,
    pub profile: Option<ProfileContent>,
    pub local_label: Option<Seq<char>>,
}

impl DeepView for CachedIdentityProjection {
    type V = ProjectionContent;

    open spec fn deep_view(&self) -> ProjectionContent {
        ProjectionContent {
            requested_id: self.requested_id@,
            account_id_hex: self.account_id_hex.deep_view(),
            profile: self.profile.deep_view(),
            local_label: self.local_label.deep_view(),
        }
    }
}

/// What is shown of one requested identity. One that cannot be read is shown as
/// requested.
pub open spec fn projection_of(app: AppContent, requested: Seq<char>) -> Result<
    ProjectionContent,
    ErrorContent,
> {
    match public_key_hex(requested) {
        None => Ok(
            ProjectionContent {
                requested_id: requested,
                account_id_hex: None,
                profile: None,
                local_label: None,
            },
        ),
        Some(id) => match entry_of(app, id, Gate::Inspect) {
            Err(error) => Err(error),
            Ok(entry) => Ok(
                ProjectionContent {
                    requested_id: requested,
                    account_id_hex: Some(id),
                    profile: match entry {
                        Some(entry) => entry.profile,
                        None => None,
                    },
                    local_label: match local_account(app, id) {
                        Some(account) => Some(account.label),
                        None => None,
                    },
                },
            ),
        },
    }
}

/// What is shown of each requested identity, in the order of the request.
pub open spec fn projections(app: AppContent, requested: Seq<Seq<char>>) -> Result<
    Seq<ProjectionContent>,
    ErrorContent,
>
    decreases requested.len(),
{
    if requested.len() == 0 {
        Ok(Seq::empty())
    } else {
        match projections(app, requested.drop_last()) {
            Err(error) => Err(error),
            Ok(before) => match projection_of(app, requested.last()) {
                Err(error) => Err(error),
                Ok(projection) => Ok(before.push(projection)),
            },
        }
    }
}

proof fn lemma_projection_error(
    app: AppContent,
    requested: Seq<Seq<char>>,
    n: int,
    error: ErrorContent,
)
    requires
        0 <= n <= requested.len(),
        projections(app, requested.take(n)) == Err::<Seq<ProjectionContent>, ErrorContent>(error),
    ensures
        projections(app, requested) == Err::<Seq<ProjectionContent>, ErrorContent>(error),
    decreases requested.len() - n,
{
    if n < requested.len() {
        assert(requested.take(n + 1).drop_last() =~= requested.take(n));
        lemma_projection_error(app, requested, n + 1, error);
    } else {
        assert(requested.take(n) =~= requested);
    }
}

/// A page of projections; no page is larger than the configured maximum.
pub open spec fn projection_page(app: AppContent, requested: Seq<Seq<char>>) -> Result<
    Seq<ProjectionContent>,
    ErrorContent,
> {
    if requested.len() > app.config.max_cached_identity_page_size {
        Err(
            ErrorContent::InvalidCachedIdentityPage(
                "requested "@ + decimal_text(requested.len()) + " accounts; maximum page size is "@
                    + decimal_text(app.config.max_cached_identity_page_size as nat),
            ),
        )
    } else {
        projections(app, requested)
    }
}

impl MarmotApp {
    fn gate_admits(&self, account_id_hex: &String, gate: Gate) -> (admitted: bool)
        ensures
            admitted == admits(self@, account_id_hex@, gate),
    {
        match gate {
            Gate::Inspect => match self.local_key_package_admission(account_id_hex) {
                Admission::Admitted(_) => true,
                _ => false,
            },
            Gate::Given(admitted) => admitted,
        }
    }

    /// Shows a stored entry: canonical, without a removed key package, with this
    /// device's account and its own route.
    pub fn hydrate_directory_record(&self, entry: UserDirectoryRecord, gate: Gate) -> (result: Result<
        UserDirectoryRecord,
        AppError,
    >)
        ensures
            outcome(result) == hydrated(self@, entry.deep_view(), gate),
            result matches Ok(shown) ==> is_canonical(shown.deep_view()),
    {
        let id = match parse_account_id_hex(entry.account_id_hex.as_str()) {
            Ok(id) => id,
            Err(error) => return Err(error),
        };
        let npub = match npub_of(id.as_str()) {
            Some(npub) => npub,
            None => return Err(AppError::InvalidPublicKey),
        };
        let retired = match &entry.key_package {
            Some(package) => self.removed_slot_is_retired(
                &id,
                &package.key_package_id,
                self.gate_admits(&id, gate),
            ),
            None => false,
        };
        let key_package = if retired {
            None
        } else {
            entry.key_package
        };
        let local_account = self.local_account_for_id(&id);
        let mut relay_lists = entry.relay_lists;
        if let Some(i) = self.find_account(&id) {
            assert(self@.accounts[i as int] == self.accounts@[i as int].deep_view());
            if let Some(generation) = &self.accounts[i].nip65_generation {
                relay_lists.nip65 = generation.duplicate();
                relay_lists.refresh();
            }
        }
        let follows = match normalize_account_ids(&entry.follows) {
            Ok(follows) => follows,
            Err(error) => return Err(error),
        };
        proof {
            lemma_ascending_set_exists(entry.follow_source_relays.deep_view());
        }
        let follow_source_relays = sort_dedup(entry.follow_source_relays);
        Ok(
            UserDirectoryRecord {
                account_id_hex: id,
                npub,
                local_account,
                profile: entry.profile,
                follows,
                follow_source_relays,
                relay_lists,
                key_package,
            },
        )
    }

    fn hydrate_optional(&self, entry: Option<UserDirectoryRecord>, gate: Gate) -> (result: Result<
        Option<UserDirectoryRecord>,
        AppError,
    >)
        ensures
            outcome(result) == hydrated_option(self@, entry.deep_view(), gate),
            result matches Ok(Some(shown)) ==> is_canonical(shown.deep_view()),
    {
        match entry {
            None => Ok(None),
            Some(entry) => match self.hydrate_directory_record(entry, gate) {
                Ok(entry) => Ok(Some(entry)),
                Err(error) => Err(error),
            },
        }
    }

    /// The entry of an identity in the storage that accounts share.
    pub fn public_directory_user(&self, account_id_hex: &String) -> (entry: Option<
        UserDirectoryRecord,
    >)
        ensures
            entry.deep_view() == find(self@.shared, account_id_hex@),
    {
        match self.shared.get(account_id_hex) {
            Some(entry) => Some(entry.duplicate()),
            None => None,
        }
    }

    fn directory_entry_from_caches(&self, account_id_hex: &String) -> (result: Result<
        Option<UserDirectoryRecord>,
        AppError,
    >)
        ensures
            outcome(result) == cached_entry(self@.accounts, account_id_hex@),
    {
        let ghost all = self.accounts.deep_view();
        let mut i: usize = 0;
        assert(all.skip(0) =~= all);
        while i < self.accounts.len()
            invariant
                i <= self.accounts@.len(),
                all == self.accounts.deep_view(),
                cached_entry(all, account_id_hex@) == cached_entry(
                    all.skip(i as int),
                    account_id_hex@,
                ),
            decreases self.accounts.len() - i,
        {
            assert(all.skip(i as int)[0] == self.accounts@[i as int].deep_view());
            assert(all.skip(i as int).drop_first() =~= all.skip(i + 1));
            if self.accounts[i].is_active_signing() {
                match self.accounts[i].cache.entry(account_id_hex.as_str()) {
                    Err(error) => return Err(error),
                    Ok(Some(entry)) => return Ok(Some(entry)),
                    Ok(None) => {},
                }
            }
            i += 1;
        }
        Ok(None)
    }

    /// What the directory knows of a canonical identity. What is shown is canonical, and
    /// is of that identity where every stored entry is under its own.
    pub fn directory_entry_with_gate(&self, account_id_hex: &String, gate: Gate) -> (result: Result<
        Option<UserDirectoryRecord>,
        AppError,
    >)
        ensures
            outcome(result) == entry_of(self@, account_id_hex@, gate),
            result matches Ok(Some(shown)) ==> is_canonical(shown.deep_view()),
            app_keyed(self@) && public_key_hex(account_id_hex@) == Some(account_id_hex@) ==> (
            result matches Ok(Some(shown)) ==> shown.account_id_hex@ == account_id_hex@),
    {
        proof {
            if app_keyed(self@) {
                lemma_cached_entry_keyed(self@.accounts, account_id_hex@);
            }
        }
        let cached = match self.directory_entry_from_caches(account_id_hex) {
            Ok(cached) => cached,
            Err(error) => return Err(error),
        };
        let cached = match self.hydrate_optional(cached, gate) {
            Ok(cached) => cached,
            Err(error) => return Err(error),
        };
        let shared = match self.hydrate_optional(self.public_directory_user(account_id_hex), gate) {
            Ok(shared) => shared,
            Err(error) => return Err(error),
        };
        Ok(select_newer_directory_entry(cached, shared))
    }

    /// What the directory knows of an identity in any of its forms. What is shown is
    /// canonical, and is of the identity that was named where every stored entry is
    /// under its own.
    pub fn directory_entry_for_account_id(&self, account_id_hex: &str) -> (result: Result<
        Option<UserDirectoryRecord>,
        AppError,
    >)
        ensures
            outcome(result) == entry_named(self@, account_id_hex@, Gate::Inspect),
            is_written_form(account_id_hex@),
            result matches Ok(Some(shown)) ==> is_canonical(shown.deep_view()),
            app_keyed(self@) ==> (result matches Ok(Some(shown)) ==> public_key_hex(account_id_hex@)
                == Some(shown.account_id_hex@)),
    {
        match parse_account_id_hex(account_id_hex) {
            Ok(id) => self.directory_entry_with_gate(&id, Gate::Inspect),
            Err(error) => Err(error),
        }
    }

    /// What the directory knows of an identity, for a caller that knows whether a
    /// session of it is admitted.
    pub fn directory_entry_for_account_id_with_admitted_account(
        &self,
        account_id_hex: &str,
        admitted: bool,
    ) -> (result: Result<Option<UserDirectoryRecord>, AppError>)
        ensures
            outcome(result) == entry_named(self@, account_id_hex@, Gate::Given(admitted)),
            result matches Ok(Some(shown)) ==> is_canonical(shown.deep_view()),
            app_keyed(self@) ==> (result matches Ok(Some(shown)) ==> public_key_hex(account_id_hex@)
                == Some(shown.account_id_hex@)),
    {
        match parse_account_id_hex(account_id_hex) {
            Ok(id) => self.directory_entry_with_gate(&id, Gate::Given(admitted)),
            Err(error) => Err(error),
        }
    }

    /// The entry of an identity that nothing is known of.
    pub fn empty_directory_record(&self, account_id_hex: &String) -> (entry: UserDirectoryRecord)
        ensures
            entry.deep_view() == empty_entry(self@, account_id_hex@),
    {
        let follows: Vec<String> = Vec::new();
        let follow_source_relays: Vec<String> = Vec::new();
        assert(follows.deep_view() =~= Seq::<Seq<char>>::empty());
        assert(follow_source_relays.deep_view() =~= Seq::<Seq<char>>::empty());
        UserDirectoryRecord {
            account_id_hex: account_id_hex.clone(),
            npub: npub_for_account_id_lossy(account_id_hex.as_str()),
            local_account: self.local_account_for_id(account_id_hex),
            profile: None,
            follows,
            follow_source_relays,
            relay_lists: AccountRelayListStatus::empty(),
            key_package: None,
        }
    }

    fn cached_identity_projection(&self, requested: &String) -> (result: Result<
        CachedIdentityProjection,
        AppError,
    >)
        ensures
            outcome(result) == projection_of(self@, requested@),
    {
        match parse_public_key(requested.as_str()) {
            None => Ok(
                CachedIdentityProjection {
                    requested_id: requested.clone(),
                    account_id_hex: None,
                    profile: None,
                    local_label: None,
                },
            ),
            Some(id) => {
                let profile = match self.directory_entry_with_gate(&id, Gate::Inspect) {
                    Err(error) => return Err(error),
                    Ok(Some(entry)) => entry.profile,
                    Ok(None) => None,
                };
                let local_label = match self.local_account_for_id(&id) {
                    Some(account) => Some(account.label),
                    None => None,
                };
                Ok(
                    CachedIdentityProjection {
                        requested_id: requested.clone(),
                        account_id_hex: Some(id),
                        profile,
                        local_label,
                    },
                )
            },
        }
    }

    /// What is cached of many identities, in the order of the request. One that
    /// cannot be read becomes a row of its own rather than failing the page.
    pub fn cached_identity_projections_for_account_ids(&self, account_id_hexes: &Vec<String>)
        -> (result: Result<Vec<CachedIdentityProjection>, AppError>)
        ensures
            outcome(result) == projection_page(self@, account_id_hexes.deep_view()),
    {
        if account_id_hexes.len() > self.config.max_cached_identity_page_size {
            let requested = join(
                "requested ",
                decimal(account_id_hexes.len() as u64).as_str(),
            );
            let text = join(
                join(requested.as_str(), " accounts; maximum page size is ").as_str(),
                decimal(self.config.max_cached_identity_page_size as u64).as_str(),
            );
            return Err(AppError::InvalidCachedIdentityPage(text));
        }
        let ghost all = account_id_hexes.deep_view();
        let mut out: Vec<CachedIdentityProjection> = Vec::new();
        let mut i: usize = 0;
        assert(out.deep_view() =~= Seq::<ProjectionContent>::empty());
        assert(all.take(0) =~= Seq::<Seq<char>>::empty());
        while i < account_id_hexes.len()
            invariant
                i <= account_id_hexes@.len(),
                all == account_id_hexes.deep_view(),
                all.len() <= self@.config.max_cached_identity_page_size,
                projections(self@, all.take(i as int)) == Ok::<
                    Seq<ProjectionContent>,
                    ErrorContent,
                >(out.deep_view()),
            decreases account_id_hexes.len() - i,
        {
            assert(all.take(i + 1).drop_last() =~= all.take(i as int));
            assert(all.take(i + 1).last() == account_id_hexes@[i as int]@);
            match self.cached_identity_projection(&account_id_hexes[i]) {
                Ok(projection) => {
                    let ghost before = out.deep_view();
                    out.push(projection);
                    assert(out.deep_view() =~= before.push(projection.deep_view()));
                },
                Err(error) => {
                    proof {
                        lemma_projection_error(self@, all, i + 1, error.deep_view());
                    }
                    return Err(error);
                },
            }
            i += 1;
        }
        assert(all.take(all.len() as int) =~= all);
        Ok(out)
    }

    /// The relay lists that the directory knows of an identity.
    pub fn account_relay_list_status_for_account_id(&self, account_id_hex: &str) -> (result: Result<
        AccountRelayListStatus,
        AppError,
    >)
        ensures
            outcome(result) == relay_lists_named(self@, account_id_hex@),
    {
        match self.directory_entry_for_account_id(account_id_hex) {
            Err(error) => Err(error),
            Ok(Some(entry)) => Ok(entry.relay_lists),
            Ok(None) => Ok(AccountRelayListStatus::empty()),
        }
    }

    /// The relay lists of the account with a label.
    pub fn account_relay_list_status(&self, label: &str) -> (result: Result<
        AccountRelayListStatus,
        AppError,
    >)
        ensures
            outcome(result) == (match labelled(self@.accounts, label@) {
                Some(id) => relay_lists_named(self@, id),
                None => Err(ErrorContent::Storage("unknown account: "@ + label@)),
            }),
    {
        let wanted = label.to_owned();
        let ghost all = self.accounts.deep_view();
        let mut i: usize = 0;
        assert(all.skip(0) =~= all);
        while i < self.accounts.len()
            invariant
                i <= self.accounts@.len(),
                all == self.accounts.deep_view(),
                wanted@ == label@,
                labelled(all, label@) == labelled(all.skip(i as int), label@),
            decreases self.accounts.len() - i,
        {
            assert(all.skip(i as int)[0] == self.accounts@[i as int].deep_view());
            assert(all.skip(i as int).drop_first() =~= all.skip(i + 1));
            if self.accounts[i].label.same(&wanted) {
                return self.account_relay_list_status_for_account_id(
                    self.accounts[i].account_id_hex.as_str(),
                );
            }
            i += 1;
        }
        Err(AppError::Storage(join("unknown account: ", label)))
    }

    /// The relays that a directory read asks: the given ones, or else the
    /// configured directory relays, or else the app's own.
    pub fn directory_source_relays(&self, source_relays: &Vec<String>) -> (relays: Vec<String>)
        ensures
            relays.deep_view() == source_relays_of(self@, source_relays.deep_view()),
    {
        if source_relays.len() > 0 {
            copy_list(source_relays)
        } else if self.config.directory_relay_urls.len() > 0 {
            copy_list(&self.config.directory_relay_urls)
        } else {
            copy_list(&self.config.relay_urls)
        }
    }
}

/// The relay lists that the directory knows of an identity.
pub open spec fn relay_lists_named(app: AppContent, text: Seq<char>) -> Result<
    RelayListStatusContent,
    ErrorContent,
> {
    match entry_named(app, text, Gate::Inspect) {
        Err(error) => Err(error),
        Ok(Some(entry)) => Ok(entry.relay_lists),
        Ok(None) => Ok(no_relay_lists()),
    }
}

/// The identity of the first account with a label.
pub open spec fn labelled(accounts: Seq<AccountContent>, label: Seq<char>) -> Option<Seq<char>>
    decreases accounts.len(),
{
    if accounts.len() == 0 {
        None
    } else if accounts[0].label == label {
        Some(accounts[0].account_id_hex)
    } else {
        labelled(accounts.drop_first(), label)
    }
}

/// The relays that a directory read asks.
pub open spec fn source_relays_of(app: AppContent, given: Seq<Seq<char>>) -> Seq<Seq<char>> {
    if given.len() > 0 {
        given
    } else if app.config.directory_relay_urls.len() > 0 {
        app.config.directory_relay_urls
    } else {
        app.config.relay_urls
    }
}

/// Whether every entry is stored under its own identity.
pub open spec fn keyed(users: Map<Seq<char>, EntryContent>) -> bool {
    forall|id: Seq<char>| #[trigger]
        users.dom().contains(id) ==> users[id].account_id_hex == id
}

/// Whether every entry, shared or in an account's cache, is stored under its own
/// identity.
pub open spec fn app_keyed(app: AppContent) -> bool {
    &&& keyed(app.shared)
    &&& accounts_keyed(app.accounts)
}

pub open spec fn accounts_keyed(accounts: Seq<AccountContent>) -> bool {
    forall|i: int| 0 <= i < accounts.len() ==> keyed((#[trigger] accounts[i]).cache.users)
}

/// An entry found in a cache is of the identity that was looked for.
pub proof fn lemma_cached_entry_keyed(accounts: Seq<AccountContent>, id: Seq<char>)
    requires
        accounts_keyed(accounts),
    ensures
        cached_entry(accounts, id) matches Ok(Some(entry)) ==> entry.account_id_hex == id,
    decreases accounts.len(),
{
    if accounts.len() > 0 {
        assert(keyed(accounts[0].cache.users));
        let rest = accounts.drop_first();
        assert forall|i: int| 0 <= i < rest.len() implies keyed(
            (#[trigger] rest[i]).cache.users,
        ) by {
            assert(rest[i] == accounts[i + 1]);
        }
        lemma_cached_entry_keyed(rest, id);
    }
}

/// Every form of an identity is answered alike.
pub proof fn law_forms_of_an_identity_are_answered_alike(
    app: AppContent,
    left: Seq<char>,
    right: Seq<char>,
    gate: Gate,
)
    requires
        public_key_hex(left) == public_key_hex(right),
    ensures
        entry_named(app, left, gate) == entry_named(app, right, gate),
        projection_of(app, left) matches Ok(shown) ==> projection_of(app, right) == Ok::<
            ProjectionContent,
            ErrorContent,
        >(ProjectionContent { requested_id: right, ..shown }),
{
}

/// A removed key package is never shown, from whichever store it is read.
pub proof fn law_removed_slot_is_never_shown(app: AppContent, id: Seq<char>, gate: Gate)
    requires
        entry_of(app, id, gate) is Ok,
        entry_of(app, id, gate)->Ok_0 is Some,
        entry_of(app, id, gate)->Ok_0->Some_0.key_package is Some,
    ensures
        ({
            let entry = entry_of(app, id, gate)->Ok_0->Some_0;
            !slot_retired(
                app,
                entry.account_id_hex,
                entry.key_package->0.key_package_id,
                admits(app, entry.account_id_hex, gate),
            )
        }),
{
}

/// Whatever relays an observer stored for an account of this device, the account's
/// own authored route is shown.
pub proof fn law_authored_route_is_shown(app: AppContent, entry: EntryContent, gate: Gate)
    requires
        hydrated(app, entry, gate) is Ok,
        ({
            let i = account_position(app.accounts, hydrated(app, entry, gate)->Ok_0.account_id_hex);
            i < app.accounts.len() && app.accounts[i].nip65_generation is Some
        }),
    ensures
        ({
            let shown = hydrated(app, entry, gate)->Ok_0;
            shown.relay_lists.nip65 == app.accounts[account_position(
                app.accounts,
                shown.account_id_hex,
            )].nip65_generation->0
        }),
{
    lemma_account_position(app.accounts, hydrated(app, entry, gate)->Ok_0.account_id_hex);
}

} // verus!
