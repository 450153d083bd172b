//! What the app knows of its own accounts: who may sign, which key packages are
//! live, and which were removed.

use crate::collections::{list_contains, same_bytes, Key, KeyMap};
use crate::directory::cache::{bindings, find, CacheContent, DirectoryCache};
use crate::directory::entry::{EntryContent, LocalAccountContent, UserDirectoryLocalAccount,
    UserDirectoryRecord};
use crate::directory::key_packages::{KeyPackage, KeyPackageContent, EVENT_ID_BYTES};
use crate::directory::member_cache::{MemberKeyPackagePrewarmCache, PrewarmContent};
use crate::directory::records::{RelayListContent, RelayListState};
use crate::error::{AppError, ErrorContent};
use crate::ids::MessageId;
use crate::text::{hex_bytes, hex_decode, is_hex_text};
use vstd::prelude::*;

verus! {

/// A key package that is to replace the current one.
#[derive(Debug)]
pub struct PendingReplacement {
    pub key_package_ref: Vec<u8>,
    pub signed_event_id: Option<MessageId>,
}

/// What an account knows of the key packages it authored.
#[derive(Debug)]
pub struct KeyPackageLifecycle {
    pub current_key_package_ref: Option<Vec<u8>>,
    pub authored_event_id: Option<MessageId>,
    pub authored_signed_event_id: Option<MessageId>,
    pub pending_replacement: Option<PendingReplacement>,
    pub consumed_key_package_refs: Vec<Vec<u8>>,
    pub deleted_live_revision_event_ids: Vec<MessageId>,
}

/// The content of a [`PendingReplacement`].
#[verifier::ext_equal]
pub struct PendingContent {
    pub key_package_ref: Seq<u8>,
    pub signed_event_id: Option<Seq<u8>>,
}

impl DeepView for PendingReplacement {
    type V = PendingContent;

    open spec fn deep_view(&self) -> PendingContent {
        PendingContent {
            key_package_ref: self.key_package_ref@,
            signed_event_id: self.signed_event_id.deep_view(),
        }
    }
}

/// The content of a [`KeyPackageLifecycle`].
#[verifier::ext_equal]
pub struct LifecycleContent {
    pub current_key_package_ref: Option<Seq<u8>>,
    pub authored_event_id: Option<Seq<u8>>,
    pub authored_signed_event_id: Option<Seq<u8>>,
    pub pending_replacement: Option<PendingContent>,
    pub consumed_key_package_refs: Seq<Seq<u8>>,
    pub deleted_live_revision_event_ids: Seq<Seq<u8>>,
}

impl DeepView for KeyPackageLifecycle {
    type V = LifecycleContent;

    open spec fn deep_view(&self) -> LifecycleContent {
        LifecycleContent {
            current_key_package_ref: self.current_key_package_ref.deep_view(),
            authored_event_id: self.authored_event_id.deep_view(),
            authored_signed_event_id: self.authored_signed_event_id.deep_view(),
            pending_replacement: self.pending_replacement.deep_view(),
            consumed_key_package_refs: self.consumed_key_package_refs.deep_view(),
            deleted_live_revision_event_ids: self.deleted_live_revision_event_ids.deep_view(),
        }
    }
}

/// Whether a revision is the current one and was not signed as another event.
pub open spec fn is_live_current(
    lifecycle: LifecycleContent,
    reference: Seq<u8>,
    event: Seq<u8>,
) -> bool {
    &&& lifecycle.current_key_package_ref == Some(reference)
    &&& lifecycle.authored_event_id == Some(event)
    &&& lifecycle.authored_signed_event_id is None || lifecycle.authored_signed_event_id == Some(
        event,
    )
}

/// Whether a revision is the pending one, and was signed.
pub open spec fn is_live_pending(
    lifecycle: LifecycleContent,
    reference: Seq<u8>,
    event: Seq<u8>,
) -> bool {
    match lifecycle.pending_replacement {
        Some(pending) => pending.key_package_ref == reference && pending.signed_event_id == Some(
            event,
        ),
        None => false,
    }
}

/// Whether the private material of a revision is still live.
pub open spec fn is_live_revision(
    lifecycle: LifecycleContent,
    reference: Seq<u8>,
    event: Seq<u8>,
) -> bool {
    &&& !lifecycle.consumed_key_package_refs.contains(reference)
    &&& !lifecycle.deleted_live_revision_event_ids.contains(event)
    &&& is_live_current(lifecycle, reference, event) || is_live_pending(
        lifecycle,
        reference,
        event,
    )
}

/// Whether a revision, named in hexadecimal, is live for an account.
pub open spec fn revision_liveness(
    lifecycle: Option<LifecycleContent>,
    reference: Seq<char>,
    event: Seq<char>,
) -> Result<bool, ErrorContent> {
    if !is_hex_text(reference) || !is_hex_text(event) {
        Err(ErrorContent::InvalidHex)
    } else if hex_bytes(event).len() != EVENT_ID_BYTES {
        Ok(false)
    } else {
        match lifecycle {
            None => Ok(false),
            Some(lifecycle) => Ok(
                is_live_revision(lifecycle, hex_bytes(reference), hex_bytes(event)),
            ),
        }
    }
}

/// Whether a reference, named in hexadecimal, is that of the live current key
/// package.
pub open spec fn current_ref_liveness(lifecycle: Option<LifecycleContent>, reference: Seq<char>)
    -> Result<bool, ErrorContent> {
    if !is_hex_text(reference) {
        Err(ErrorContent::InvalidHex)
    } else {
        match lifecycle {
            None => Ok(false),
            Some(lifecycle) => match lifecycle.authored_event_id {
                None => Ok(false),
                Some(event) => {
                    let bytes = hex_bytes(reference);
                    Ok(
                        is_live_current(lifecycle, bytes, event)
                            && !lifecycle.consumed_key_package_refs.contains(bytes)
                            && !lifecycle.deleted_live_revision_event_ids.contains(event),
                    )
                },
            },
        }
    }
}

fn same_optional_bytes(left: &Option<Vec<u8>>, right: &Vec<u8>) -> (equal: bool)
    ensures
        equal == (left.deep_view() == Some(right@)),
{
    match left {
        Some(bytes) => {
            assert(bytes.deep_view() =~= bytes@);
            same_bytes(bytes, right)
        },
        None => false,
    }
}

fn same_optional_id(left: &Option<MessageId>, right: &MessageId) -> (equal: bool)
    ensures
        equal == (left.deep_view() == Some(right.deep_view())),
{
    match left {
        Some(id) => id.same(right),
        None => false,
    }
}

impl KeyPackageLifecycle {
    fn is_current(&self, reference: &Vec<u8>, event: &MessageId) -> (live: bool)
        ensures
            live == is_live_current(self.deep_view(), reference@, event.deep_view()),
    {
        same_optional_bytes(&self.current_key_package_ref, reference) && same_optional_id(
            &self.authored_event_id,
            event,
        ) && (self.authored_signed_event_id.is_none() || same_optional_id(
            &self.authored_signed_event_id,
            event,
        ))
    }

    fn is_pending(&self, reference: &Vec<u8>, event: &MessageId) -> (live: bool)
        ensures
            live == is_live_pending(self.deep_view(), reference@, event.deep_view()),
    {
        match &self.pending_replacement {
            Some(pending) => same_bytes(&pending.key_package_ref, reference) && same_optional_id(
                &pending.signed_event_id,
                event,
            ),
            None => false,
        }
    }

    fn is_consumed(&self, reference: &Vec<u8>) -> (consumed: bool)
        ensures
            consumed == self.deep_view().consumed_key_package_refs.contains(reference@),
    {
        let consumed = list_contains(&self.consumed_key_package_refs, reference);
        assert(reference.deep_view() =~= reference@);
        consumed
    }

    /// Whether the private material of a revision is still live.
    pub fn revision_is_live(&self, reference: &Vec<u8>, event: &MessageId) -> (live: bool)
        ensures
            live == is_live_revision(self.deep_view(), reference@, event.deep_view()),
    {
        !self.is_consumed(reference) && !list_contains(
            &self.deleted_live_revision_event_ids,
            event,
        ) && (self.is_current(reference, event) || self.is_pending(reference, event))
    }
}

/// An account of this device. `current_key_package` is the one that its private
/// state holds as valid.
#[derive(Debug)]
pub struct AccountState {
    pub label: String,
    pub account_id_hex: String,
    pub local_signing: bool,
    pub external_signing: bool,
    pub signed_out: bool,
    pub cache: DirectoryCache,
    pub lifecycle: Option<KeyPackageLifecycle>,
    pub current_key_package: Option<KeyPackage>,
    pub nip65_generation: Option<RelayListState>,
}

/// The content of an [`AccountState`].
#[verifier::ext_equal]
pub struct AccountContent {
    pub label: Seq<char>,
    pub account_id_hex: Seq<char>,
    pub local_signing: bool,
    pub external_signing: bool,
    pub signed_out: bool,
    pub cache: CacheContent,
    pub lifecycle: Option<LifecycleContent>,
    pub current_key_package: Option<KeyPackageContent>,
    pub nip65_generation: Option<RelayListContent>,
}

impl DeepView for AccountState {
    type V = AccountContent;

    open spec fn deep_view(&self) -> AccountContent {
        AccountContent {
            label: self.label@,
            account_id_hex: self.account_id_hex@,
            local_signing: self.local_signing,
            external_signing: self.external_signing,
            signed_out: self.signed_out,
            cache: self.cache@,
            lifecycle: self.lifecycle.deep_view(),
            current_key_package: self.current_key_package.deep_view(),
            nip65_generation: self.nip65_generation.deep_view(),
        }
    }
}

pub open spec fn signs(account: AccountContent) -> bool {
    account.local_signing || account.external_signing
}

pub open spec fn signs_now(account: AccountContent) -> bool {
    signs(account) && !account.signed_out
}

impl AccountState {
    /// Whether the account holds or reaches a signer.
    pub fn can_sign(&self) -> (can: bool)
        ensures
            can == signs(self.deep_view()),
    {
        self.local_signing || self.external_signing
    }

    /// Whether the account can sign and is signed in.
    pub fn is_active_signing(&self) -> (active: bool)
        ensures
            active == signs_now(self.deep_view()),
    {
        self.can_sign() && !self.signed_out
    }

    /// Whether a revision, named in hexadecimal, is live for this account.
    pub fn key_package_revision_is_live(&self, reference: &str, event: &str) -> (result: Result<
        bool,
        AppError,
    >)
        ensures
            flag(result) == revision_liveness(self.deep_view().lifecycle, reference@, event@),
    {
        let reference = match hex_decode(reference) {
            Ok(bytes) => bytes,
            Err(_) => return Err(AppError::InvalidHex),
        };
        let event = match hex_decode(event) {
            Ok(bytes) => bytes,
            Err(_) => return Err(AppError::InvalidHex),
        };
        if event.len() != EVENT_ID_BYTES {
            return Ok(false);
        }
        let event = MessageId::new(event);
        match &self.lifecycle {
            None => Ok(false),
            Some(lifecycle) => Ok(lifecycle.revision_is_live(&reference, &event)),
        }
    }

    /// Whether a reference, named in hexadecimal, is that of this account's live
    /// current key package.
    pub fn current_key_package_ref_is_live(&self, reference: &str) -> (result: Result<
        bool,
        AppError,
    >)
        ensures
            flag(result) == current_ref_liveness(self.deep_view().lifecycle, reference@),
    {
        let reference = match hex_decode(reference) {
            Ok(bytes) => bytes,
            Err(_) => return Err(AppError::InvalidHex),
        };
        match &self.lifecycle {
            None => Ok(false),
            Some(lifecycle) => match &lifecycle.authored_event_id {
                None => Ok(false),
                Some(event) => Ok(
                    lifecycle.is_current(&reference, event) && !lifecycle.is_consumed(&reference)
                        && !list_contains(&lifecycle.deleted_live_revision_event_ids, event),
                ),
            },
        }
    }
}

/// The content of a fallible answer.
pub open spec fn flag(result: Result<bool, AppError>) -> Result<bool, ErrorContent> {
    match result {
        Ok(value) => Ok(value),
        Err(error) => Err(error.deep_view()),
    }
}

/// Whether sessions of an account may be entered.
#[derive(Debug)]
pub struct SessionAdmission {
    pub account_id_hex: String,
    pub open: bool,
}

impl DeepView for SessionAdmission {
    type V = (Seq<char>, bool);

    open spec fn deep_view(&self) -> (Seq<char>, bool) {
        (self.account_id_hex@, self.open)
    }
}

/// A removed key package slot of an account.
#[derive(Debug)]
pub struct RemovedSlot {
    pub account_id_hex: String,
    pub key_package_id: String,
}

impl DeepView for RemovedSlot {
    type V = (Seq<char>, Seq<char>);

    open spec fn deep_view(&self) -> (Seq<char>, Seq<char>) {
        (self.account_id_hex@, self.key_package_id@)
    }
}

impl Key for RemovedSlot {
    fn same(&self, other: &Self) -> (equal: bool) {
        self.account_id_hex.same(&other.account_id_hex) && self.key_package_id.same(
            &other.key_package_id,
        )
    }

    fn duplicate(&self) -> (copy: Self) {
        RemovedSlot {
            account_id_hex: self.account_id_hex.clone(),
            key_package_id: self.key_package_id.clone(),
        }
    }
}

/// How the directory is reached and searched.
#[derive(Debug)]
pub struct DirectoryConfig {
    pub relay_urls: Vec<String>,
    pub directory_relay_urls: Vec<String>,
    pub directory_max_future_skew: u64,
    pub directory_search_fallback_seeds: Vec<String>,
    pub max_cached_identity_page_size: usize,
    pub search_max_visited: usize,
    pub search_max_frontier: usize,
}

/// The content of a [`DirectoryConfig`].
#[verifier::ext_equal]
pub struct ConfigContent {
    pub relay_urls: Seq<Seq<char>>,
    pub directory_relay_urls: Seq<Seq<char>>,
    pub directory_max_future_skew: u64,
    pub directory_search_fallback_seeds: Seq<Seq<char>>,
    pub max_cached_identity_page_size: usize,
    pub search_max_visited: usize,
    pub search_max_frontier: usize,
}

impl DeepView for DirectoryConfig {
    type V = ConfigContent;

    open spec fn deep_view(&self) -> ConfigContent {
        ConfigContent {
            relay_urls: self.relay_urls.deep_view(),
            directory_relay_urls: self.directory_relay_urls.deep_view(),
            directory_max_future_skew: self.directory_max_future_skew,
            directory_search_fallback_seeds: self.directory_search_fallback_seeds.deep_view(),
            max_cached_identity_page_size: self.max_cached_identity_page_size,
            search_max_visited: self.search_max_visited,
            search_max_frontier: self.search_max_frontier,
        }
    }
}

/// The directory side of the app. `rebuild_requested` is set when the directory
/// subscriptions have to be planned anew.
#[derive(Debug)]
pub struct MarmotApp {
    pub accounts: Vec<AccountState>,
    pub shared: KeyMap<String, UserDirectoryRecord>,
    pub admissions: KeyMap<String, SessionAdmission>,
    pub removed_slots: Vec<RemovedSlot>,
    pub removed_accounts: Vec<String>,
    pub prewarmed: MemberKeyPackagePrewarmCache,
    pub config: DirectoryConfig,
    pub rebuild_requested: bool,
    pub legacy_cache_checked: bool,
}

/// What the directory side of the app holds.
#[verifier::ext_equal]
pub struct AppContent {
    pub accounts: Seq<AccountContent>,
    pub shared: Map<Seq<char>, EntryContent>,
    pub admissions: Map<Seq<char>, (Seq<char>, bool)>,
    pub removed_slots: Seq<(Seq<char>, Seq<char>)>,
    pub removed_accounts: Seq<Seq<char>>,
    pub prewarmed: Seq<PrewarmContent>,
    pub config: ConfigContent,
    pub rebuild_requested: bool,
    pub legacy_cache_checked: bool,
}

impl View for MarmotApp {
    type V = AppContent;

    open spec fn view(&self) -> AppContent {
        AppContent {
            accounts: self.accounts.deep_view(),
            shared: bindings(self.shared),
            admissions: bindings(self.admissions),
            removed_slots: self.removed_slots.deep_view(),
            removed_accounts: self.removed_accounts.deep_view(),
            prewarmed: self.prewarmed@,
            config: self.config.deep_view(),
            rebuild_requested: self.rebuild_requested,
            legacy_cache_checked: self.legacy_cache_checked,
        }
    }
}

/// The first account with an identity, or the number of accounts.
pub open spec fn account_position(accounts: Seq<AccountContent>, id: Seq<char>) -> int
    decreases accounts.len(),
{
    if accounts.len() == 0 {
        0
    } else if accounts[0].account_id_hex == id {
        0
    } else {
        1 + account_position(accounts.drop_first(), id)
    }
}

/// The first account with an identity that can sign, or the number of accounts.
pub open spec fn signer_position(accounts: Seq<AccountContent>, id: Seq<char>) -> int
    decreases accounts.len(),
{
    if accounts.len() == 0 {
        0
    } else if accounts[0].account_id_hex == id && signs(accounts[0]) {
        0
    } else {
        1 + signer_position(accounts.drop_first(), id)
    }
}

/// Whether an identity belongs to this device.
pub open spec fn is_local(app: AppContent, id: Seq<char>) -> bool {
    account_position(app.accounts, id) < app.accounts.len()
}

/// This device's account with an identity.
pub open spec fn local_account(app: AppContent, id: Seq<char>) -> Option<LocalAccountContent> {
    let i = account_position(app.accounts, id);
    if 0 <= i < app.accounts.len() {
        Some(
            LocalAccountContent {
                label: app.accounts[i].label,
                local_signing: app.accounts[i].local_signing,
            },
        )
    } else {
        None
    }
}

/// Whether sessions of an account may be entered.
pub open spec fn session_open(app: AppContent, account: AccountContent) -> bool {
    match find(app.admissions, account.label) {
        Some((id, open)) => id != account.account_id_hex || open,
        None => true,
    }
}

/// How an identity stands to this device: a stranger to it, or one of its signing
/// accounts that may be entered or not.
pub enum Standing {
    Remote,
    Refused,
    Admitted(int),
}

/// How an identity stands to this device.
pub open spec fn standing(app: AppContent, id: Seq<char>) -> Standing {
    let i = signer_position(app.accounts, id);
    if !(0 <= i < app.accounts.len()) {
        Standing::Remote
    } else if app.accounts[i].signed_out || !session_open(app, app.accounts[i]) {
        Standing::Refused
    } else {
        Standing::Admitted(i)
    }
}

/// How an identity stands to this device; an admitted account by its position.
#[derive(Clone, Copy, Debug, PartialEq, Eq, Structural)]
pub enum Admission {
    Remote,
    Refused,
    Admitted(usize),
}

pub open spec fn stands(admission: Admission) -> Standing {
    match admission {
        Admission::Remote => Standing::Remote,
        Admission::Refused => Standing::Refused,
        Admission::Admitted(i) => Standing::Admitted(i as int),
    }
}

/// Whether a slot of an account was removed. A removal of the whole account counts
/// where no session of it is admitted.
pub open spec fn slot_retired(
    app: AppContent,
    id: Seq<char>,
    slot: Seq<char>,
    admitted: bool,
) -> bool {
    app.removed_slots.contains((id, slot)) || (app.removed_accounts.contains(id) && !admitted)
}

pub proof fn lemma_account_position(accounts: Seq<AccountContent>, id: Seq<char>)
    ensures
        0 <= account_position(accounts, id) <= accounts.len(),
        account_position(accounts, id) < accounts.len() ==> accounts[account_position(
            accounts,
            id,
        )].account_id_hex == id,
        forall|j: int|
            0 <= j < account_position(accounts, id) ==> (#[trigger] accounts[j]).account_id_hex
                != id,
    decreases accounts.len(),
{
    if accounts.len() > 0 && accounts[0].account_id_hex != id {
        let rest = accounts.drop_first();
        lemma_account_position(rest, id);
        let k = account_position(rest, id);
        if k < rest.len() {
            assert(rest[k] == accounts[k + 1]);
        }
        assert forall|j: int| 0 <= j < 1 + k implies (#[trigger] accounts[j]).account_id_hex
            != id by {
            if j > 0 {
                assert(rest[j - 1] == accounts[j]);
            }
        }
    }
}

pub proof fn lemma_signer_position(accounts: Seq<AccountContent>, id: Seq<char>)
    ensures
        0 <= signer_position(accounts, id) <= accounts.len(),
        signer_position(accounts, id) < accounts.len() ==> accounts[signer_position(
            accounts,
            id,
        )].account_id_hex == id && signs(accounts[signer_position(accounts, id)]),
    decreases accounts.len(),
{
    if accounts.len() > 0 && !(accounts[0].account_id_hex == id && signs(accounts[0])) {
        let rest = accounts.drop_first();
        lemma_signer_position(rest, id);
        let k = signer_position(rest, id);
        if k < rest.len() {
            assert(rest[k] == accounts[k + 1]);
        }
    }
}

impl MarmotApp {
    /// An app without accounts, that knows nobody.
    pub fn new(config: DirectoryConfig) -> (app: Self)
        ensures
            app@ == (AppContent {
                accounts: Seq::empty(),
                shared: Map::empty(),
                admissions: Map::empty(),
                removed_slots: Seq::empty(),
                removed_accounts: Seq::empty(),
                prewarmed: Seq::empty(),
                config: config.deep_view(),
                rebuild_requested: false,
                legacy_cache_checked: false,
            }),
    {
        let app = MarmotApp {
            accounts: Vec::new(),
            shared: KeyMap::new(),
            admissions: KeyMap::new(),
            removed_slots: Vec::new(),
            removed_accounts: Vec::new(),
            prewarmed: MemberKeyPackagePrewarmCache::new(),
            config,
            rebuild_requested: false,
            legacy_cache_checked: false,
        };
        assert(app.accounts.deep_view() =~= Seq::<AccountContent>::empty());
        assert(app@.shared =~= Map::<Seq<char>, EntryContent>::empty());
        assert(app@.admissions =~= Map::<Seq<char>, (Seq<char>, bool)>::empty());
        assert(app@.removed_slots =~= Seq::<(Seq<char>, Seq<char>)>::empty());
        assert(app@.removed_accounts =~= Seq::<Seq<char>>::empty());
        app
    }

    /// The first account with an identity.
    pub fn find_account(&self, account_id_hex: &String) -> (position: Option<usize>)
        ensures
            match position {
                Some(i) => i < self.accounts@.len() && i == account_position(
                    self@.accounts,
                    account_id_hex@,
                ),
                None => account_position(self@.accounts, account_id_hex@) == self.accounts@.len(),
            },
    {
        let ghost all = self.accounts.deep_view();
        let mut i: usize = 0;
        assert(all.skip(0) =~= all);
        while i < self.accounts.len()
            invariant
                i <= self.accounts@.len(),
                all == self.accounts.deep_view(),
                account_position(all, account_id_hex@) == i + account_position(
                    all.skip(i as int),
                    account_id_hex@,
                ),
            decreases self.accounts.len() - i,
        {
            assert(all.skip(i as int)[0] == self.accounts@[i as int].deep_view());
            assert(all.skip(i as int).drop_first() =~= all.skip(i + 1));
            if self.accounts[i].account_id_hex.same(account_id_hex) {
                return Some(i);
            }
            i += 1;
        }
        None
    }

    /// The first account with an identity that can sign.
    pub fn local_signing_account_for_id(&self, account_id_hex: &String) -> (position: Option<usize>)
        ensures
            match position {
                Some(i) => i < self.accounts@.len() && i == signer_position(
                    self@.accounts,
                    account_id_hex@,
                ),
                None => signer_position(self@.accounts, account_id_hex@) == self.accounts@.len(),
            },
    {
        let ghost all = self.accounts.deep_view();
        let mut i: usize = 0;
        assert(all.skip(0) =~= all);
        while i < self.accounts.len()
            invariant
                i <= self.accounts@.len(),
                all == self.accounts.deep_view(),
                signer_position(all, account_id_hex@) == i + signer_position(
                    all.skip(i as int),
                    account_id_hex@,
                ),
            decreases self.accounts.len() - i,
        {
            assert(all.skip(i as int)[0] == self.accounts@[i as int].deep_view());
            assert(all.skip(i as int).drop_first() =~= all.skip(i + 1));
            if self.accounts[i].account_id_hex.same(account_id_hex) && self.accounts[i].can_sign() {
                return Some(i);
            }
            i += 1;
        }
        None
    }

    /// This device's account with an identity, as directory entries show it.
    pub fn local_account_for_id(&self, account_id_hex: &String) -> (account: Option<
        UserDirectoryLocalAccount,
    >)
        ensures
            account.deep_view() == local_account(self@, account_id_hex@),
    {
        match self.find_account(account_id_hex) {
            Some(i) => {
                assert(self@.accounts[i as int] == self.accounts@[i as int].deep_view());
                Some(
                    UserDirectoryLocalAccount {
                        label: self.accounts[i].label.clone(),
                        local_signing: self.accounts[i].local_signing,
                    },
                )
            },
            None => None,
        }
    }

    /// How an identity stands to this device.
    pub fn local_key_package_admission(&self, account_id_hex: &String) -> (admission: Admission)
        ensures
            stands(admission) == standing(self@, account_id_hex@),
            admission matches Admission::Admitted(i) ==> i < self.accounts@.len(),
    {
        match self.local_signing_account_for_id(account_id_hex) {
            None => Admission::Remote,
            Some(i) => {
                assert(self@.accounts[i as int] == self.accounts@[i as int].deep_view());
                let account = &self.accounts[i];
                let open = match self.admissions.get(&account.label) {
                    Some(state) => {
                        assert(self@.admissions.dom().contains(account.label@));
                        !state.account_id_hex.same(&account.account_id_hex) || state.open
                    },
                    None => true,
                };
                if account.signed_out || !open {
                    Admission::Refused
                } else {
                    Admission::Admitted(i)
                }
            },
        }
    }

    /// Whether a slot of an account was removed.
    pub fn removed_slot_is_retired(
        &self,
        account_id_hex: &String,
        key_package_id: &String,
        admitted: bool,
    ) -> (retired: bool)
        ensures
            retired == slot_retired(self@, account_id_hex@, key_package_id@, admitted),
    {
        let slot = RemovedSlot {
            account_id_hex: account_id_hex.clone(),
            key_package_id: key_package_id.clone(),
        };
        list_contains(&self.removed_slots, &slot) || (list_contains(
            &self.removed_accounts,
            account_id_hex,
        ) && !admitted)
    }

    /// Whether a revision of an identity may be used. Strangers' may; an account's
    /// own must be live, and never while it is signed out or being torn down.
    pub fn local_key_package_revision_is_live(
        &self,
        account_id_hex: &String,
        key_package_ref_hex: &str,
        key_package_event_id: &str,
    ) -> (result: Result<bool, AppError>)
        ensures
            flag(result) == local_revision_liveness(
                self@,
                account_id_hex@,
                key_package_ref_hex@,
                key_package_event_id@,
            ),
    {
        match self.local_key_package_admission(account_id_hex) {
            Admission::Remote => Ok(true),
            Admission::Refused => Ok(false),
            Admission::Admitted(i) => {
                assert(self@.accounts[i as int] == self.accounts@[i as int].deep_view());
                self.accounts[i].key_package_revision_is_live(
                    key_package_ref_hex,
                    key_package_event_id,
                )
            },
        }
    }

    /// Whether a reference of an identity may be used as its current one.
    pub fn local_current_key_package_ref_is_live(
        &self,
        account_id_hex: &String,
        key_package_ref_hex: &str,
    ) -> (result: Result<bool, AppError>)
        ensures
            flag(result) == local_current_liveness(
                self@,
                account_id_hex@,
                key_package_ref_hex@,
            ),
    {
        match self.local_key_package_admission(account_id_hex) {
            Admission::Remote => Ok(true),
            Admission::Refused => Ok(false),
            Admission::Admitted(i) => {
                assert(self@.accounts[i as int] == self.accounts@[i as int].deep_view());
                self.accounts[i].current_key_package_ref_is_live(key_package_ref_hex)
            },
        }
    }
}

/// Whether a revision of an identity may be used.
pub open spec fn local_revision_liveness(
    app: AppContent,
    id: Seq<char>,
    reference: Seq<char>,
    event: Seq<char>,
) -> Result<bool, ErrorContent> {
    match standing(app, id) {
        Standing::Remote => Ok(true),
        Standing::Refused => Ok(false),
        Standing::Admitted(i) => revision_liveness(app.accounts[i].lifecycle, reference, event),
    }
}

/// Whether a reference of an identity may be used as its current one.
pub open spec fn local_current_liveness(
    app: AppContent,
    id: Seq<char>,
    reference: Seq<char>,
) -> Result<bool, ErrorContent> {
    match standing(app, id) {
        Standing::Remote => Ok(true),
        Standing::Refused => Ok(false),
        Standing::Admitted(i) => current_ref_liveness(app.accounts[i].lifecycle, reference),
    }
}

/// A consumed or deleted revision of an account's own is never live.
pub proof fn law_spent_revision_is_never_live(
    lifecycle: LifecycleContent,
    reference: Seq<u8>,
    event: Seq<u8>,
)
    requires
        lifecycle.consumed_key_package_refs.contains(reference)
            || lifecycle.deleted_live_revision_event_ids.contains(event),
    ensures
        !is_live_revision(lifecycle, reference, event),
{
}

/// A signed-out account's key packages are refused, whatever its state says.
pub proof fn law_signed_out_account_is_refused(
    app: AppContent,
    id: Seq<char>,
    reference: Seq<char>,
    event: Seq<char>,
)
    requires
        signer_position(app.accounts, id) < app.accounts.len(),
        app.accounts[signer_position(app.accounts, id)].signed_out,
    ensures
        local_revision_liveness(app, id, reference, event) == Ok::<bool, ErrorContent>(false),
        local_current_liveness(app, id, reference) == Ok::<bool, ErrorContent>(false),
{
    lemma_signer_position(app.accounts, id);
}

} // verus!
