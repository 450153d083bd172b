//! Resolving the key packages of a group's members as one set: aliases and
//! duplicates collapse, what is known is reused, and only the rest is fetched.

use crate::collections::{same_bytes, Key};
use crate::directory::app_entry::{
    entry_named, parse_account_id_hex, parsed_id, Gate,
};
use crate::directory::app_ingest::with_live_package;
use crate::directory::app_state::{
    account_position, local_current_liveness, local_revision_liveness, signs, signs_now,
    slot_retired, standing, AccountContent, Admission, AppContent, MarmotApp, Standing,
};
use crate::directory::entry::{
    DirectoryKeyPackage, DirectoryKeyPackageContent, EntryContent, UserDirectoryRecord,
};
use crate::directory::key_packages::{
    cached_package, copy_decoding, decoding, outcome, validated_cached_key_package, verdict,
    FetchedContent, FetchedKeyPackage, KeyPackage, KeyPackageContent, KeyPackageMetadata,
    MetadataContent, ProtocolProfile,
};
use crate::directory::member_cache::{kept_at, kept_package, with_package};
use crate::directory::records::{
    no_relay_lists, AccountRelayListStatus, RelayListStatusContent,
};
use crate::error::{AppError, ErrorContent};
use crate::text::{hex_bytes, hex_decode, is_hex_text};
use vstd::prelude::*;

verus! {

/// Key packages with what decoding each of them gave.
#[derive(Debug)]
pub struct KeyPackageDecodings {
    entries: Vec<DecodedPackage>,
}

#[derive(Debug)]
struct DecodedPackage {
    bytes: Vec<u8>,
    metadata: Result<KeyPackageMetadata, String>,
}

/// What decoding some bytes gave.
#[verifier::ext_equal]
pub struct DecodedContent {
    pub bytes: Seq<u8>,
    pub metadata: Result<MetadataContent, Seq<char>>,
}

spec fn decoded_content(entry: DecodedPackage) -> DecodedContent {
    DecodedContent { bytes: entry.bytes@, metadata: decoding(entry.metadata) }
}

impl View for KeyPackageDecodings {
    type V = Seq<DecodedContent>;

    closed spec fn view(&self) -> Seq<DecodedContent> {
        self.entries@.map_values(|entry: DecodedPackage| decoded_content(entry))
    }
}

/// What decoding some bytes gave; an error where they were not decoded.
pub open spec fn decoded(table: Seq<DecodedContent>, bytes: Seq<u8>) -> Result<
    MetadataContent,
    Seq<char>,
>
    decreases table.len(),
{
    if table.len() == 0 {
        Err("KeyPackage was not decoded"@)
    } else if table[0].bytes == bytes {
        table[0].metadata
    } else {
        decoded(table.drop_first(), bytes)
    }
}

impl KeyPackageDecodings {
    pub fn new() -> (table: Self)
        ensures
            table@ == Seq::<DecodedContent>::empty(),
    {
        let table = KeyPackageDecodings { entries: Vec::new() };
        assert(table@ =~= Seq::<DecodedContent>::empty());
        table
    }

    /// Notes what decoding some bytes gave.
    pub fn note(&mut self, bytes: Vec<u8>, metadata: Result<KeyPackageMetadata, String>)
        ensures
            final(self)@ == old(self)@.push(
                DecodedContent { bytes: bytes@, metadata: decoding(metadata) },
            ),
    {
        let ghost before = self@;
        self.entries.push(DecodedPackage { bytes, metadata });
        assert(self@ =~= before.push(
            DecodedContent { bytes: bytes@, metadata: decoding(metadata) },
        ));
    }

    /// What decoding some bytes gave.
    pub fn metadata_of(&self, bytes: &Vec<u8>) -> (metadata: Result<KeyPackageMetadata, String>)
        ensures
            decoding(metadata) == decoded(self@, bytes@),
    {
        let ghost all = self@;
        let mut i: usize = 0;
        assert(all.skip(0) =~= all);
        while i < self.entries.len()
            invariant
                i <= self.entries@.len(),
                all == self@,
                decoded(all, bytes@) == decoded(all.skip(i as int), bytes@),
            decreases self.entries.len() - i,
        {
            assert(all.skip(i as int)[0] == decoded_content(self.entries@[i as int]));
            assert(all.skip(i as int).drop_first() =~= all.skip(i + 1));
            if same_bytes(&self.entries[i].bytes, bytes) {
                return copy_decoding(&self.entries[i].metadata);
            }
            i += 1;
        }
        Err("KeyPackage was not decoded".to_owned())
    }

    /// What decoding a cached key package gave.
    pub fn metadata_of_cached(&self, package: &DirectoryKeyPackage) -> (metadata: Result<
        KeyPackageMetadata,
        String,
    >)
        ensures
            decoding(metadata) == decoded_cached(self@, package.deep_view()),
    {
        match hex_decode(package.key_package_hex.as_str()) {
            Ok(bytes) => self.metadata_of(&bytes),
            Err(_) => Err("KeyPackage was not decoded".to_owned()),
        }
    }
}

/// What decoding a cached key package gave.
pub open spec fn decoded_cached(
    table: Seq<DecodedContent>,
    package: DirectoryKeyPackageContent,
) -> Result<MetadataContent, Seq<char>> {
    if is_hex_text(package.key_package_hex) {
        decoded(table, hex_bytes(package.key_package_hex))
    } else {
        Err("KeyPackage was not decoded"@)
    }
}

/// What the key packages are resolved for: to commit to a group, or ahead of that.
#[derive(Clone, Copy, Debug, PartialEq, Eq, Structural)]
pub enum MemberResolutionPurpose {
    Commit,
    Prewarm,
}

/// How a resolution went.
#[derive(Clone, Copy, Debug, PartialEq, Eq, Structural)]
pub struct MemberKeyPackageResolutionStats {
    pub requested_members: usize,
    pub unique_members: usize,
    pub reused_members: usize,
    pub network_resolved_members: usize,
}

/// How a resolution ahead of its use went.
#[derive(Clone, Copy, Debug, PartialEq, Eq, Structural)]
pub struct MemberKeyPackagePrewarmSummary {
    /// How many members were asked for.
    pub requested_members: u64,
    /// How many accounts these are.
    pub unique_members: u64,
    /// How many key packages were known already.
    pub reused_members: u64,
    /// How many key packages had to be fetched.
    pub network_resolved_members: u64,
}

impl MemberKeyPackagePrewarmSummary {
    pub fn from_stats(stats: MemberKeyPackageResolutionStats) -> (summary: Self)
        ensures
            summary.requested_members == stats.requested_members,
            summary.unique_members == stats.unique_members,
            summary.reused_members == stats.reused_members,
            summary.network_resolved_members == stats.network_resolved_members,
    {
        MemberKeyPackagePrewarmSummary {
            requested_members: stats.requested_members as u64,
            unique_members: stats.unique_members as u64,
            reused_members: stats.reused_members as u64,
            network_resolved_members: stats.network_resolved_members as u64,
        }
    }
}

/// A member to resolve.
#[derive(Debug)]
pub struct MemberTarget {
    pub account_id_hex: String,
    pub local_label: Option<String>,
    pub local_signing_unavailable: bool,
    pub relay_lists: AccountRelayListStatus,
}

/// The content of a [`MemberTarget`].
#[verifier::ext_equal]
pub struct TargetContent {
    pub account_id_hex: Seq<char>,
    pub local_label: Option<Seq<char>>,
    pub local_signing_unavailable: bool,
    pub relay_lists: RelayListStatusContent,
}

impl DeepView for MemberTarget {
    type V = TargetContent;

    open spec fn deep_view(&self) -> TargetContent {
        TargetContent {
            account_id_hex: self.account_id_hex@,
            local_label: self.local_label.deep_view(),
            local_signing_unavailable: self.local_signing_unavailable,
            relay_lists: self.relay_lists.deep_view(),
        }
    }
}

/// The first account with a label, or the number of accounts.
pub open spec fn label_position(accounts: Seq<AccountContent>, label: Seq<char>) -> int
    decreases accounts.len(),
{
    if accounts.len() == 0 {
        0
    } else if accounts[0].label == label {
        0
    } else {
        1 + label_position(accounts.drop_first(), label)
    }
}

/// The account that a member is named by: this device's with that label, or the one
/// with that identity.
pub open spec fn member_id(app: AppContent, name: Seq<char>) -> Result<Seq<char>, ErrorContent> {
    let i = label_position(app.accounts, name);
    if 0 <= i < app.accounts.len() {
        Ok(app.accounts[i].account_id_hex)
    } else {
        parsed_id(name)
    }
}

/// This device's account of a member, where it is one.
pub open spec fn member_account(app: AppContent, name: Seq<char>, id: Seq<char>) -> Option<int> {
    let i = label_position(app.accounts, name);
    let k = account_position(app.accounts, id);
    if 0 <= i < app.accounts.len() {
        Some(i)
    } else if 0 <= k < app.accounts.len() {
        Some(k)
    } else {
        None
    }
}

pub open spec fn lists_of_entry(entry: Result<Option<EntryContent>, ErrorContent>) -> Result<
    RelayListStatusContent,
    ErrorContent,
> {
    match entry {
        Err(error) => Err(error),
        Ok(Some(entry)) => Ok(entry.relay_lists),
        Ok(None) => Ok(no_relay_lists()),
    }
}

/// What is known of a member before anything is fetched. One of this device's own
/// that may not be entered is out of reach, and nothing is read of it.
pub open spec fn target_of(app: AppContent, name: Seq<char>, id: Seq<char>) -> Result<
    TargetContent,
    ErrorContent,
> {
    let account = member_account(app, name, id);
    let local_label = if account is Some && signs_now(app.accounts[account->0]) {
        Some(app.accounts[account->0].label)
    } else {
        None
    };
    if account is Some && signs(app.accounts[account->0]) {
        match standing(app, id) {
            Standing::Refused => Ok(
                TargetContent {
                    account_id_hex: id,
                    local_label,
                    local_signing_unavailable: true,
                    relay_lists: no_relay_lists(),
                },
            ),
            Standing::Remote => made_target(
                id,
                local_label,
                lists_of_entry(entry_named(app, id, Gate::Given(false))),
            ),
            Standing::Admitted(_) => made_target(
                id,
                local_label,
                lists_of_entry(entry_named(app, id, Gate::Given(true))),
            ),
        }
    } else {
        made_target(id, local_label, lists_of_entry(entry_named(app, id, Gate::Inspect)))
    }
}

pub open spec fn made_target(
    id: Seq<char>,
    local_label: Option<Seq<char>>,
    lists: Result<RelayListStatusContent, ErrorContent>,
) -> Result<TargetContent, ErrorContent> {
    match lists {
        Err(error) => Err(error),
        Ok(relay_lists) => Ok(
            TargetContent {
                account_id_hex: id,
                local_label,
                local_signing_unavailable: false,
                relay_lists,
            },
        ),
    }
}

/// Whether a member is already among the targets.
pub open spec fn is_target(targets: Seq<TargetContent>, id: Seq<char>) -> bool {
    exists|i: int| 0 <= i < targets.len() && (#[trigger] targets[i]).account_id_hex == id
}

/// The members to resolve, each account once, at the position where it was first
/// named.
pub open spec fn targets_of(app: AppContent, names: Seq<Seq<char>>) -> Result<
    Seq<TargetContent>,
    ErrorContent,
>
    decreases names.len(),
{
    if names.len() == 0 {
        Ok(Seq::empty())
    } else {
        match targets_of(app, names.drop_last()) {
            Err(error) => Err(error),
            Ok(before) => match member_id(app, names.last()) {
                Err(error) => Err(error),
                Ok(id) => if is_target(before, id) {
                    Ok(before)
                } else {
                    match target_of(app, names.last(), id) {
                        Err(error) => Err(error),
                        Ok(target) => Ok(before.push(target)),
                    }
                },
            },
        }
    }
}

/// What keeps a member's key package from being used now.
pub open spec fn member_package_fault(
    id: Seq<char>,
    metadata: Result<MetadataContent, Seq<char>>,
    now: u64,
) -> Option<ErrorContent> {
    match metadata {
        Err(error) => Some(ErrorContent::InvalidKeyPackageEvent(error)),
        Ok(metadata) => if metadata.protocol_profile != ProtocolProfile::Current
            || metadata.credential_identity_hex != id {
            Some(
                ErrorContent::InvalidKeyPackageEvent(
                    "member KeyPackage identity or profile is invalid"@,
                ),
            )
        } else if now < metadata.not_before || now > metadata.not_after {
            Some(
                ErrorContent::InvalidKeyPackageEvent(
                    "member KeyPackage is outside its current lifetime"@,
                ),
            )
        } else {
            None
        },
    }
}

/// Checks that a member's key package may be used now.
pub fn validate_member_key_package_current(
    account_id_hex: &String,
    metadata: &Result<KeyPackageMetadata, String>,
    now: u64,
) -> (result: Result<(), AppError>)
    ensures
        verdict(result) == member_package_fault(account_id_hex@, decoding(*metadata), now),
{
    match metadata {
        Err(error) => Err(AppError::InvalidKeyPackageEvent(error.clone())),
        Ok(metadata) => {
            if metadata.protocol_profile != ProtocolProfile::Current
                || !metadata.credential_identity_hex.same(account_id_hex) {
                return Err(
                    AppError::InvalidKeyPackageEvent(
                        "member KeyPackage identity or profile is invalid".to_owned(),
                    ),
                );
            }
            if now < metadata.not_before || now > metadata.not_after {
                return Err(
                    AppError::InvalidKeyPackageEvent(
                        "member KeyPackage is outside its current lifetime".to_owned(),
                    ),
                );
            }
            Ok(())
        },
    }
}

/// The app after a fetched key package was accepted for a purpose, and the key
/// package.
pub open spec fn accepted(
    app: AppContent,
    purpose: MemberResolutionPurpose,
    fetched: FetchedContent,
    table: Seq<DecodedContent>,
    now: u64,
    now_ms: u64,
) -> (AppContent, Result<KeyPackageContent, ErrorContent>) {
    let id = fetched.account_id_hex;
    let missing = Err(ErrorContent::MissingKeyPackage(id));
    if slot_retired(app, id, fetched.key_package_id, standing(app, id) is Admitted) {
        (app, missing)
    } else {
        match local_revision_liveness(
            app,
            id,
            fetched.key_package_ref_hex,
            fetched.key_package_event_id,
        ) {
            Err(error) => (app, Err(error)),
            Ok(false) => (app, missing),
            Ok(true) => match member_package_fault(
                id,
                decoded(table, fetched.key_package.bytes),
                now,
            ) {
                Some(error) => (app, Err(error)),
                None => match purpose {
                    MemberResolutionPurpose::Commit => {
                        let (after, remembered) = with_live_package(app, fetched, now as i64);
                        match remembered {
                            Err(error) => (after, Err(error)),
                            Ok(false) => (after, missing),
                            Ok(true) => (after, Ok(fetched.key_package)),
                        }
                    },
                    MemberResolutionPurpose::Prewarm => (
                        AppContent {
                            prewarmed: with_package(app.prewarmed, fetched, now_ms),
                            ..app
                        },
                        Ok(fetched.key_package),
                    ),
                },
            },
        }
    }
}

/// What is known of a member that can be reused.
#[derive(Debug)]
pub enum Reuse {
    Unavailable,
    Reused(KeyPackage),
    Unresolved,
}

/// The content of a [`Reuse`].
#[verifier::ext_equal]
pub enum ReuseContent {
    Unavailable,
    Reused(KeyPackageContent),
    Unresolved,
}

impl DeepView for Reuse {
    type V = ReuseContent;

    open spec fn deep_view(&self) -> ReuseContent {
        match self {
            Reuse::Unavailable => ReuseContent::Unavailable,
            Reuse::Reused(package) => ReuseContent::Reused(package.deep_view()),
            Reuse::Unresolved => ReuseContent::Unresolved,
        }
    }
}

/// The key package that this device's private state holds for a member, where it
/// may be used now.
pub open spec fn usable_local(
    app: AppContent,
    target: TargetContent,
    table: Seq<DecodedContent>,
    now: u64,
) -> Option<KeyPackageContent> {
    match target.local_label {
        None => None,
        Some(label) => {
            let i = label_position(app.accounts, label);
            if !(0 <= i < app.accounts.len()) {
                None
            } else {
                match app.accounts[i].current_key_package {
                    None => None,
                    Some(package) => {
                        let metadata = decoded(table, package.bytes);
                        if member_package_fault(target.account_id_hex, metadata, now) is None
                            && local_current_liveness(
                            app,
                            target.account_id_hex,
                            metadata->Ok_0.key_package_ref_hex,
                        ) == Ok::<bool, ErrorContent>(true) {
                            Some(package)
                        } else {
                            None
                        }
                    },
                }
            }
        },
    }
}

/// The directory entry of a member. One of this device's own is read only while it
/// may be entered.
pub open spec fn target_entry(app: AppContent, target: TargetContent) -> Result<
    Option<EntryContent>,
    ErrorContent,
> {
    if target.local_label is None {
        entry_named(app, target.account_id_hex, Gate::Inspect)
    } else {
        match standing(app, target.account_id_hex) {
            Standing::Refused => Ok(None),
            Standing::Remote => entry_named(app, target.account_id_hex, Gate::Given(false)),
            Standing::Admitted(_) => entry_named(app, target.account_id_hex, Gate::Given(true)),
        }
    }
}

/// The cached key package of a member, where it may be used now.
pub open spec fn usable_cached(
    app: AppContent,
    target: TargetContent,
    entry: Option<EntryContent>,
    table: Seq<DecodedContent>,
    now: u64,
) -> Option<KeyPackageContent> {
    match entry {
        None => None,
        Some(entry) => match entry.key_package {
            None => None,
            Some(package) => {
                let metadata = decoded_cached(table, package);
                if local_revision_liveness(
                    app,
                    target.account_id_hex,
                    package.key_package_ref_hex,
                    package.key_package_event_id,
                ) != Ok::<bool, ErrorContent>(true) {
                    None
                } else {
                    match cached_package(target.account_id_hex, package, metadata) {
                        Err(_) => None,
                        Ok((decoded, _)) => if member_package_fault(
                            target.account_id_hex,
                            metadata,
                            now,
                        ) is None {
                            Some(decoded)
                        } else {
                            None
                        },
                    }
                }
            },
        },
    }
}

/// What is reused for a member, in order of preference: its own private state, the
/// directory, and what was fetched ahead.
pub open spec fn reuse_of(
    app: AppContent,
    target: TargetContent,
    table: Seq<DecodedContent>,
    purpose: MemberResolutionPurpose,
    now: u64,
    now_ms: u64,
) -> (AppContent, Result<ReuseContent, ErrorContent>) {
    if target.local_signing_unavailable {
        (app, Ok(ReuseContent::Unavailable))
    } else if usable_local(app, target, table, now) is Some {
        (app, Ok(ReuseContent::Reused(usable_local(app, target, table, now)->0)))
    } else {
        match target_entry(app, target) {
            Err(error) => (app, Err(error)),
            Ok(entry) => if usable_cached(app, target, entry, table, now) is Some {
                (app, Ok(ReuseContent::Reused(usable_cached(app, target, entry, table, now)->0)))
            } else {
                let kept = kept_at(app.prewarmed, now_ms);
                let fresh = AppContent { prewarmed: kept, ..app };
                match kept_package(kept, target.account_id_hex) {
                    None => (fresh, Ok(ReuseContent::Unresolved)),
                    Some(fetched) => {
                        let (after, package) = accepted(
                            fresh,
                            purpose,
                            fetched,
                            table,
                            now,
                            now_ms,
                        );
                        match package {
                            Ok(package) => (after, Ok(ReuseContent::Reused(package))),
                            Err(_) => (after, Ok(ReuseContent::Unresolved)),
                        }
                    },
                }
            },
        }
    }
}

impl MarmotApp {
    fn find_label(&self, label: &String) -> (position: Option<usize>)
        ensures
            match position {
                Some(i) => i < self.accounts@.len() && i == label_position(
                    self@.accounts,
                    label@,
                ),
                None => label_position(self@.accounts, label@) == self.accounts@.len(),
            },
    {
        let ghost all = self.accounts.deep_view();
        let mut i: usize = 0;
        assert(all.skip(0) =~= all);
        while i < self.accounts.len()
            invariant
                i <= self.accounts@.len(),
                all == self.accounts.deep_view(),
                label_position(all, label@) == i + label_position(all.skip(i as int), label@),
            decreases self.accounts.len() - i,
        {
            assert(all.skip(i as int)[0] == self.accounts@[i as int].deep_view());
            assert(all.skip(i as int).drop_first() =~= all.skip(i + 1));
            if self.accounts[i].label.same(label) {
                return Some(i);
            }
            i += 1;
        }
        None
    }

    fn lists_for_gate(&self, account_id_hex: &String, gate: Gate) -> (result: Result<
        AccountRelayListStatus,
        AppError,
    >)
        ensures
            outcome(result) == lists_of_entry(entry_named(self@, account_id_hex@, gate)),
    {
        match parse_account_id_hex(account_id_hex.as_str()) {
            Err(error) => Err(error),
            Ok(id) => match self.directory_entry_with_gate(&id, gate) {
                Err(error) => Err(error),
                Ok(Some(entry)) => Ok(entry.relay_lists),
                Ok(None) => Ok(AccountRelayListStatus::empty()),
            },
        }
    }

    fn member_target(&self, name: &String, id: &String) -> (result: Result<MemberTarget, AppError>)
        ensures
            outcome(result) == target_of(self@, name@, id@),
    {
        let account = match self.find_label(name) {
            Some(i) => Some(i),
            None => self.find_account(id),
        };
        let mut local_label: Option<String> = None;
        let mut signing = false;
        if let Some(i) = account {
            assert(self@.accounts[i as int] == self.accounts@[i as int].deep_view());
            signing = self.accounts[i].can_sign();
            if self.accounts[i].is_active_signing() {
                local_label = Some(self.accounts[i].label.clone());
            }
        }
        let gate = if signing {
            match self.local_key_package_admission(id) {
                Admission::Refused => {
                    return Ok(
                        MemberTarget {
                            account_id_hex: id.clone(),
                            local_label,
                            local_signing_unavailable: true,
                            relay_lists: AccountRelayListStatus::empty(),
                        },
                    );
                },
                Admission::Remote => Gate::Given(false),
                Admission::Admitted(_) => Gate::Given(true),
            }
        } else {
            Gate::Inspect
        };
        match self.lists_for_gate(id, gate) {
            Err(error) => Err(error),
            Ok(relay_lists) => Ok(
                MemberTarget {
                    account_id_hex: id.clone(),
                    local_label,
                    local_signing_unavailable: false,
                    relay_lists,
                },
            ),
        }
    }

    /// The members to resolve, each account once, at the position where it was first
    /// named.
    pub fn member_targets(&self, member_refs: &Vec<String>) -> (result: Result<
        Vec<MemberTarget>,
        AppError,
    >)
        ensures
            outcome(result) == targets_of(self@, member_refs.deep_view()),
    {
        let ghost all = member_refs.deep_view();
        let mut targets: Vec<MemberTarget> = Vec::new();
        let mut i: usize = 0;
        assert(targets.deep_view() =~= Seq::<TargetContent>::empty());
        assert(all.take(0) =~= Seq::<Seq<char>>::empty());
        while i < member_refs.len()
            invariant
                i <= member_refs@.len(),
                all == member_refs.deep_view(),
                targets_of(self@, all.take(i as int)) == Ok::<Seq<TargetContent>, ErrorContent>(
                    targets.deep_view(),
                ),
            decreases member_refs.len() - i,
        {
            assert(all.take(i + 1).drop_last() =~= all.take(i as int));
            assert(all.take(i + 1).last() == member_refs@[i as int]@);
            let name = &member_refs[i];
            let id = match self.find_label(name) {
                Some(k) => {
                    assert(self@.accounts[k as int] == self.accounts@[k as int].deep_view());
                    self.accounts[k].account_id_hex.clone()
                },
                None => match parse_account_id_hex(name.as_str()) {
                    Ok(id) => id,
                    Err(error) => {
                        proof {
                            lemma_targets_stop(self@, all, i + 1, error.deep_view());
                        }
                        return Err(error);
                    },
                },
            };
            if !contains_target(&targets, &id) {
                match self.member_target(name, &id) {
                    Ok(target) => {
                        let ghost before = targets.deep_view();
                        targets.push(target);
                        assert(targets.deep_view() =~= before.push(target.deep_view()));
                    },
                    Err(error) => {
                        proof {
                            lemma_targets_stop(self@, all, i + 1, error.deep_view());
                        }
                        return Err(error);
                    },
                }
            }
            i += 1;
        }
        assert(all.take(all.len() as int) =~= all);
        Ok(targets)
    }

    /// Accepts a fetched key package for a purpose: to be committed to it is
    /// remembered as live, and ahead of that it is kept for a while.
    pub fn accept_prefetched_key_package(
        &mut self,
        purpose: MemberResolutionPurpose,
        fetched: FetchedKeyPackage,
        table: &KeyPackageDecodings,
        now: u64,
        now_ms: u64,
    ) -> (result: Result<KeyPackage, AppError>)
        requires
            now <= i64::MAX,
        ensures
            (final(self)@, outcome(result)) == accepted(
                old(self)@,
                purpose,
                fetched.deep_view(),
                table@,
                now,
                now_ms,
            ),
    {
        let admission = self.local_key_package_admission(&fetched.account_id_hex);
        let admitted = match admission {
            Admission::Admitted(_) => true,
            _ => false,
        };
        if self.removed_slot_is_retired(
            &fetched.account_id_hex,
            &fetched.key_package_id,
            admitted,
        ) {
            return Err(AppError::MissingKeyPackage(fetched.account_id_hex));
        }
        match self.local_key_package_revision_is_live(
            &fetched.account_id_hex,
            fetched.key_package_ref_hex.as_str(),
            fetched.key_package_event_id.as_str(),
        ) {
            Err(error) => return Err(error),
            Ok(false) => return Err(AppError::MissingKeyPackage(fetched.account_id_hex)),
            Ok(true) => {},
        }
        let metadata = table.metadata_of(&fetched.key_package.bytes);
        if let Err(error) = validate_member_key_package_current(
            &fetched.account_id_hex,
            &metadata,
            now,
        ) {
            return Err(error);
        }
        let package = fetched.key_package.duplicate();
        match purpose {
            MemberResolutionPurpose::Commit => {
                match self.remember_directory_key_package_if_live(&fetched, now as i64) {
                    Err(error) => Err(error),
                    Ok(false) => Err(AppError::MissingKeyPackage(fetched.account_id_hex)),
                    Ok(true) => Ok(package),
                }
            },
            MemberResolutionPurpose::Prewarm => {
                self.prewarmed.insert(fetched, now_ms);
                Ok(package)
            },
        }
    }

    fn usable_local_package(
        &self,
        target: &MemberTarget,
        table: &KeyPackageDecodings,
        now: u64,
    ) -> (package: Option<KeyPackage>)
        ensures
            package.deep_view() == usable_local(self@, target.deep_view(), table@, now),
    {
        let label = match &target.local_label {
            None => return None,
            Some(label) => label,
        };
        let i = match self.find_label(label) {
            None => return None,
            Some(i) => i,
        };
        assert(self@.accounts[i as int] == self.accounts@[i as int].deep_view());
        let package = match &self.accounts[i].current_key_package {
            None => return None,
            Some(package) => package,
        };
        let metadata = table.metadata_of(&package.bytes);
        if validate_member_key_package_current(&target.account_id_hex, &metadata, now).is_err() {
            return None;
        }
        match metadata {
            Err(_) => None,
            Ok(metadata) => match self.local_current_key_package_ref_is_live(
                &target.account_id_hex,
                metadata.key_package_ref_hex.as_str(),
            ) {
                Ok(true) => Some(package.duplicate()),
                _ => None,
            },
        }
    }

    /// The directory entry of a member. One of this device's own is read only while
    /// it may be entered.
    pub fn directory_entry_for_member_target(&self, target: &MemberTarget) -> (result: Result<
        Option<UserDirectoryRecord>,
        AppError,
    >)
        ensures
            outcome(result) == target_entry(self@, target.deep_view()),
    {
        let gate = if target.local_label.is_none() {
            Gate::Inspect
        } else {
            match self.local_key_package_admission(&target.account_id_hex) {
                Admission::Refused => return Ok(None),
                Admission::Remote => Gate::Given(false),
                Admission::Admitted(_) => Gate::Given(true),
            }
        };
        match parse_account_id_hex(target.account_id_hex.as_str()) {
            Err(error) => Err(error),
            Ok(id) => self.directory_entry_with_gate(&id, gate),
        }
    }

    fn usable_cached_package(
        &self,
        target: &MemberTarget,
        entry: &Option<UserDirectoryRecord>,
        table: &KeyPackageDecodings,
        now: u64,
    ) -> (package: Option<KeyPackage>)
        ensures
            package.deep_view() == usable_cached(
                self@,
                target.deep_view(),
                entry.deep_view(),
                table@,
                now,
            ),
    {
        let entry = match entry {
            None => return None,
            Some(entry) => entry,
        };
        let package = match &entry.key_package {
            None => return None,
            Some(package) => package,
        };
        match self.local_key_package_revision_is_live(
            &target.account_id_hex,
            package.key_package_ref_hex.as_str(),
            package.key_package_event_id.as_str(),
        ) {
            Ok(true) => {},
            _ => return None,
        }
        let metadata = table.metadata_of_cached(package);
        let usable = validate_member_key_package_current(
            &target.account_id_hex,
            &metadata,
            now,
        ).is_ok();
        match validated_cached_key_package(target.account_id_hex.as_str(), package, metadata) {
            Err(_) => None,
            Ok(decoded) => if usable {
                Some(decoded)
            } else {
                None
            },
        }
    }

    /// Reuses what is known of a member, in order of preference: its own private
    /// state, the directory, and what was fetched ahead.
    pub fn reuse_member_key_package(
        &mut self,
        target: &MemberTarget,
        table: &KeyPackageDecodings,
        purpose: MemberResolutionPurpose,
        now: u64,
        now_ms: u64,
    ) -> (result: Result<Reuse, AppError>)
        requires
            now <= i64::MAX,
        ensures
            (final(self)@, outcome(result)) == reuse_of(
                old(self)@,
                target.deep_view(),
                table@,
                purpose,
                now,
                now_ms,
            ),
    {
        if target.local_signing_unavailable {
            return Ok(Reuse::Unavailable);
        }
        if let Some(package) = self.usable_local_package(target, table, now) {
            return Ok(Reuse::Reused(package));
        }
        let entry = match self.directory_entry_for_member_target(target) {
            Err(error) => return Err(error),
            Ok(entry) => entry,
        };
        if let Some(package) = self.usable_cached_package(target, &entry, table, now) {
            return Ok(Reuse::Reused(package));
        }
        match self.prewarmed.get(target.account_id_hex.as_str(), now_ms) {
            None => Ok(Reuse::Unresolved),
            Some(fetched) => match self.accept_prefetched_key_package(
                purpose,
                fetched,
                table,
                now,
                now_ms,
            ) {
                Ok(package) => Ok(Reuse::Reused(package)),
                Err(_) => Ok(Reuse::Unresolved),
            },
        }
    }
}

fn contains_target(targets: &Vec<MemberTarget>, id: &String) -> (found: bool)
    ensures
        found == is_target(targets.deep_view(), id@),
{
    let ghost all = targets.deep_view();
    let mut i: usize = 0;
    while i < targets.len()
        invariant
            i <= targets@.len(),
            all == targets.deep_view(),
            forall|j: int| 0 <= j < i ==> (#[trigger] all[j]).account_id_hex != id@,
        decreases targets.len() - i,
    {
        assert(all[i as int] == targets@[i as int].deep_view());
        if targets[i].account_id_hex.same(id) {
            return true;
        }
        i += 1;
    }
    false
}

proof fn lemma_targets_stop(
    app: AppContent,
    names: Seq<Seq<char>>,
    n: int,
    error: ErrorContent,
)
    requires
        0 <= n <= names.len(),
        targets_of(app, names.take(n)) == Err::<Seq<TargetContent>, ErrorContent>(error),
    ensures
        targets_of(app, names) == Err::<Seq<TargetContent>, ErrorContent>(error),
    decreases names.len() - n,
{
    if n < names.len() {
        assert(names.take(n + 1).drop_last() =~= names.take(n));
        lemma_targets_stop(app, names, n + 1, error);
    } else {
        assert(names.take(n) =~= names);
    }
}

/// Every account is a target at most once.
pub proof fn law_members_are_resolved_once(app: AppContent, names: Seq<Seq<char>>)
    requires
        targets_of(app, names) is Ok,
    ensures
        forall|i: int, j: int|
            0 <= i < j < targets_of(app, names)->Ok_0.len() ==> (
            #[trigger] targets_of(app, names)->Ok_0[i]).account_id_hex != (
            #[trigger] targets_of(app, names)->Ok_0[j]).account_id_hex,
    decreases names.len(),
{
    if names.len() > 0 {
        law_members_are_resolved_once(app, names.drop_last());
        let before = targets_of(app, names.drop_last())->Ok_0;
        let after = targets_of(app, names)->Ok_0;
        let id = member_id(app, names.last())->Ok_0;
        if !is_target(before, id) {
            assert forall|i: int, j: int| 0 <= i < j < after.len() implies (
            #[trigger] after[i]).account_id_hex != (#[trigger] after[j]).account_id_hex by {
                assert(after[i] == before[i]);
                if j < before.len() {
                    assert(after[j] == before[j]);
                }
            }
        }
    }
}

} // verus!
