//! What the directory knows of an account.

use crate::collections::{copy_list, Key};
use crate::directory::records::{same_texts, AccountRelayListStatus, RelayListStatusContent};
use vstd::prelude::*;

verus! {

/// A published profile. `extra` holds the fields that have no name here, as the
/// text of a JSON object.
#[derive(Debug, PartialEq, Eq)]
pub struct UserProfileMetadata {
    pub name: Option<String>,
    pub display_name: Option<String>,
    pub about: Option<String>,
    pub picture: Option<String>,
    pub banner: Option<String>,
    pub nip05: Option<String>,
    pub lud16: Option<String>,
    pub created_at: u64,
    pub source_relays: Vec<String>,
    pub extra: String,
}

/// The content of a [`UserProfileMetadata`].
#[verifier::ext_equal]
pub struct ProfileContent {
    pub name: Option<Seq<char>>,
    pub display_name: Option<Seq<char>>,
    pub about: Option<Seq<char>>,
    pub picture: Option<Seq<char>>,
    pub banner: Option<Seq<char>>,
    pub nip05: Option<Seq<char>>,
    pub lud16: Option<Seq<char>>,
    pub created_at: u64,
    pub source_relays: Seq<Seq<char>>,
    pub extra: Seq<char>,
}

impl DeepView for UserProfileMetadata {
    type V = ProfileContent;

    open spec fn deep_view(&self) -> ProfileContent {
        ProfileContent {
            name: self.name.deep_view(),
            display_name: self.display_name.deep_view(),
            about: self.about.deep_view(),
            picture: self.picture.deep_view(),
            banner: self.banner.deep_view(),
            nip05: self.nip05.deep_view(),
            lud16: self.lud16.deep_view(),
            created_at: self.created_at,
            source_relays: self.source_relays.deep_view(),
            extra: self.extra@,
        }
    }
}

/// Copies an optional value.
pub fn copy_optional<K: Key>(value: &Option<K>) -> (copy: Option<K>)
    ensures
        copy.deep_view() == value.deep_view(),
{
    match value {
        Some(inner) => Some(inner.duplicate()),
        None => None,
    }
}

/// Compares two optional values.
pub fn same_optional<K: Key>(left: &Option<K>, right: &Option<K>) -> (equal: bool)
    ensures
        equal == (left.deep_view() == right.deep_view()),
{
    match (left, right) {
        (Some(a), Some(b)) => a.same(b),
        (None, None) => true,
        _ => false,
    }
}

impl Key for UserProfileMetadata {
    fn same(&self, other: &Self) -> (equal: bool) {
        same_optional(&self.name, &other.name) && same_optional(
            &self.display_name,
            &other.display_name,
        ) && same_optional(&self.about, &other.about) && same_optional(
            &self.picture,
            &other.picture,
        ) && same_optional(&self.banner, &other.banner) && same_optional(&self.nip05, &other.nip05)
            && same_optional(&self.lud16, &other.lud16) && self.created_at == other.created_at
            && same_texts(&self.source_relays, &other.source_relays) && self.extra.same(
            &other.extra,
        )
    }

    fn duplicate(&self) -> (copy: Self) {
        UserProfileMetadata {
            name: copy_optional(&self.name),
            display_name: copy_optional(&self.display_name),
            about: copy_optional(&self.about),
            picture: copy_optional(&self.picture),
            banner: copy_optional(&self.banner),
            nip05: copy_optional(&self.nip05),
            lud16: copy_optional(&self.lud16),
            created_at: self.created_at,
            source_relays: copy_list(&self.source_relays),
            extra: self.extra.clone(),
        }
    }
}

/// A profile that says nothing.
pub open spec fn empty_profile() -> ProfileContent {
    ProfileContent {
        name: None,
        display_name: None,
        about: None,
        picture: None,
        banner: None,
        nip05: None,
        lud16: None,
        created_at: 0,
        source_relays: Seq::empty(),
        extra: Seq::empty(),
    }
}

impl Default for UserProfileMetadata {
    fn default() -> (profile: Self)
        ensures
            profile.deep_view() == empty_profile(),
    {
        let profile = UserProfileMetadata {
            name: None,
            display_name: None,
            about: None,
            picture: None,
            banner: None,
            nip05: None,
            lud16: None,
            created_at: 0,
            source_relays: Vec::new(),
            extra: String::new(),
        };
        assert(profile.deep_view() =~= empty_profile());
        profile
    }
}

/// A cached key package, as published.
#[derive(Debug, PartialEq, Eq)]
pub struct DirectoryKeyPackage {
    pub key_package_id: String,
    pub key_package_ref_hex: String,
    pub key_package_event_id: String,
    pub key_package_hex: String,
    pub created_at: u64,
    pub source_relays: Vec<String>,
}

/// The content of a [`DirectoryKeyPackage`].
#[verifier::ext_equal]
pub struct DirectoryKeyPackageContent {
    pub key_package_id: Seq<char>,
    pub key_package_ref_hex: Seq<char>,
    pub key_package_event_id: Seq<char>,
    pub key_package_hex: Seq<char>,
    pub created_at: u64,
    pub source_relays: Seq<Seq<char>>,
}

impl DeepView for DirectoryKeyPackage {
    type V = DirectoryKeyPackageContent;

    open spec fn deep_view(&self) -> DirectoryKeyPackageContent {
        DirectoryKeyPackageContent {
            key_package_id: self.key_package_id@,
            key_package_ref_hex: self.key_package_ref_hex@,
            key_package_event_id: self.key_package_event_id@,
            key_package_hex: self.key_package_hex@,
            created_at: self.created_at,
            source_relays: self.source_relays.deep_view(),
        }
    }
}

impl Key for DirectoryKeyPackage {
    fn same(&self, other: &Self) -> (equal: bool) {
        self.key_package_id.same(&other.key_package_id) && self.key_package_ref_hex.same(
            &other.key_package_ref_hex,
        ) && self.key_package_event_id.same(&other.key_package_event_id)
            && self.key_package_hex.same(&other.key_package_hex) && self.created_at
            == other.created_at && same_texts(&self.source_relays, &other.source_relays)
    }

    fn duplicate(&self) -> (copy: Self) {
        DirectoryKeyPackage {
            key_package_id: self.key_package_id.clone(),
            key_package_ref_hex: self.key_package_ref_hex.clone(),
            key_package_event_id: self.key_package_event_id.clone(),
            key_package_hex: self.key_package_hex.clone(),
            created_at: self.created_at,
            source_relays: copy_list(&self.source_relays),
        }
    }
}

/// An account of this device.
#[derive(Debug, PartialEq, Eq)]
pub struct UserDirectoryLocalAccount {
    pub label: String,
    pub local_signing: bool,
}

/// The content of a [`UserDirectoryLocalAccount`].
#[verifier::ext_equal]
pub struct LocalAccountContent {
    pub label: Seq<char>,
    pub local_signing: bool,
}

impl DeepView for UserDirectoryLocalAccount {
    type V = LocalAccountContent;

    open spec fn deep_view(&self) -> LocalAccountContent {
        LocalAccountContent { label: self.label@, local_signing: self.local_signing }
    }
}

impl Key for UserDirectoryLocalAccount {
    fn same(&self, other: &Self) -> (equal: bool) {
        self.label.same(&other.label) && self.local_signing == other.local_signing
    }

    fn duplicate(&self) -> (copy: Self) {
        UserDirectoryLocalAccount { label: self.label.clone(), local_signing: self.local_signing }
    }
}

/// What the directory knows of an account.
#[derive(Debug, PartialEq, Eq)]
pub struct UserDirectoryRecord {
    pub account_id_hex: String,
    pub npub: String,
    pub local_account: Option<UserDirectoryLocalAccount>,
    pub profile: Option<UserProfileMetadata>,
    pub follows: Vec<String>,
    pub follow_source_relays: Vec<String>,
    pub relay_lists: AccountRelayListStatus,
    pub key_package: Option<DirectoryKeyPackage>,
}

/// The content of a [`UserDirectoryRecord`].
#[verifier::ext_equal]
pub struct EntryContent {
    pub account_id_hex: Seq<char>,
    pub npub: Seq<char>,
    pub local_account: Option<LocalAccountContent>,
    pub profile: Option<ProfileContent>,
    pub follows: Seq<Seq<char>>,
    pub follow_source_relays: Seq<Seq<char>>,
    pub relay_lists: RelayListStatusContent,
    pub key_package: Option<DirectoryKeyPackageContent>,
}

impl DeepView for UserDirectoryRecord {
    type V = EntryContent;

    open spec fn deep_view(&self) -> EntryContent {
        EntryContent {
            account_id_hex: self.account_id_hex@,
            npub: self.npub@,
            local_account: self.local_account.deep_view(),
            profile: self.profile.deep_view(),
            follows: self.follows.deep_view(),
            follow_source_relays: self.follow_source_relays.deep_view(),
            relay_lists: self.relay_lists.deep_view(),
            key_package: self.key_package.deep_view(),
        }
    }
}

impl Key for UserDirectoryRecord {
    fn same(&self, other: &Self) -> (equal: bool) {
        self.account_id_hex.same(&other.account_id_hex) && self.npub.same(&other.npub)
            && same_optional(&self.local_account, &other.local_account) && same_optional(
            &self.profile,
            &other.profile,
        ) && same_texts(&self.follows, &other.follows) && same_texts(
            &self.follow_source_relays,
            &other.follow_source_relays,
        ) && self.relay_lists.same(&other.relay_lists) && same_optional(
            &self.key_package,
            &other.key_package,
        )
    }

    fn duplicate(&self) -> (copy: Self) {
        UserDirectoryRecord {
            account_id_hex: self.account_id_hex.clone(),
            npub: self.npub.clone(),
            local_account: copy_optional(&self.local_account),
            profile: copy_optional(&self.profile),
            follows: copy_list(&self.follows),
            follow_source_relays: copy_list(&self.follow_source_relays),
            relay_lists: self.relay_lists.duplicate(),
            key_package: copy_optional(&self.key_package),
        }
    }
}

} // verus!
