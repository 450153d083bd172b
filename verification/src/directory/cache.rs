//! The directory cache of an account: known users, why they are known, and the
//! search graph around them.

use crate::collections::{copy_list, list_contains, Key, KeyMap};
use crate::directory::entry::{
    copy_optional, DirectoryKeyPackageContent, EntryContent, ProfileContent, UserDirectoryRecord,
    UserProfileMetadata,
};
use crate::directory::key_packages::verdict;
use crate::directory::records::{no_relay_lists, AccountRelayListStatus};
use crate::error::{AppError, ErrorContent};
use crate::order::{is_ascending, sort_dedup};
use vstd::prelude::*;

verus! {

/// How long a profile that a search found stays usable, in seconds.
pub const SEARCH_GRAPH_PROFILE_TTL_SECONDS: i64 = 86_400;

/// Why an account is known.
#[derive(Debug)]
pub struct KnownReason {
    pub account_id_hex: String,
    pub reason: String,
}

impl DeepView for KnownReason {
    type V = (Seq<char>, Seq<char>);

    open spec fn deep_view(&self) -> (Seq<char>, Seq<char>) {
        (self.account_id_hex@, self.reason@)
    }
}

impl Key for KnownReason {
    fn same(&self, other: &Self) -> (equal: bool) {
        self.account_id_hex.same(&other.account_id_hex) && self.reason.same(&other.reason)
    }

    fn duplicate(&self) -> (copy: Self) {
        KnownReason { account_id_hex: self.account_id_hex.clone(), reason: self.reason.clone() }
    }
}

/// When an account was first and last known for a reason.
#[derive(Clone, Copy, Debug, PartialEq, Eq, Structural)]
pub struct SeenAt {
    pub first_seen_at: i64,
    pub last_seen_at: i64,
}

/// An account in the search graph.
#[derive(Debug)]
pub struct SearchGraphUser {
    pub npub: String,
    pub profile: Option<UserProfileMetadata>,
    pub metadata_updated_at: Option<i64>,
    pub metadata_expires_at: Option<i64>,
    pub follows_known: bool,
    pub follows: Vec<String>,
}

/// The content of a [`SearchGraphUser`].
#[verifier::ext_equal]
pub struct GraphUserContent {
    pub npub: Seq<char>,
    pub profile: Option<ProfileContent>,
    pub metadata_updated_at: Option<i64>,
    pub metadata_expires_at: Option<i64>,
    pub follows_known: bool,
    pub follows: Seq<Seq<char>>,
}

impl DeepView for SearchGraphUser {
    type V = GraphUserContent;

    open spec fn deep_view(&self) -> GraphUserContent {
        GraphUserContent {
            npub: self.npub@,
            profile: self.profile.deep_view(),
            metadata_updated_at: self.metadata_updated_at,
            metadata_expires_at: self.metadata_expires_at,
            follows_known: self.follows_known,
            follows: self.follows.deep_view(),
        }
    }
}

impl SearchGraphUser {
    pub fn duplicate(&self) -> (copy: Self)
        ensures
            copy.deep_view() == self.deep_view(),
    {
        SearchGraphUser {
            npub: self.npub.clone(),
            profile: copy_optional(&self.profile),
            metadata_updated_at: self.metadata_updated_at,
            metadata_expires_at: self.metadata_expires_at,
            follows_known: self.follows_known,
            follows: copy_list(&self.follows),
        }
    }
}

/// What a search learned of an account. Without `follows`, what the graph knows
/// of its follows stays.
#[derive(Debug)]
pub struct DirectorySearchGraphRecord {
    pub account_id_hex: String,
    pub npub: String,
    pub profile: Option<UserProfileMetadata>,
    pub follows: Option<Vec<String>>,
    pub metadata_updated_at: Option<u64>,
    pub metadata_expires_at: Option<u64>,
}

/// The content of a [`DirectorySearchGraphRecord`].
#[verifier::ext_equal]
pub struct GraphRecordContent {
    pub account_id_hex: Seq<char>,
    pub npub: Seq<char>,
    pub profile: Option<ProfileContent>,
    pub follows: Option<Seq<Seq<char>>>,
    pub metadata_updated_at: Option<u64>,
    pub metadata_expires_at: Option<u64>,
}

impl DeepView for DirectorySearchGraphRecord {
    type V = GraphRecordContent;

    open spec fn deep_view(&self) -> GraphRecordContent {
        GraphRecordContent {
            account_id_hex: self.account_id_hex@,
            npub: self.npub@,
            profile: self.profile.deep_view(),
            follows: self.follows.deep_view(),
            metadata_updated_at: self.metadata_updated_at,
            metadata_expires_at: self.metadata_expires_at,
        }
    }
}

/// What a directory cache holds.
#[verifier::ext_equal]
pub struct CacheContent {
    pub closed: bool,
    pub users: Map<Seq<char>, EntryContent>,
    pub reasons: Map<(Seq<char>, Seq<char>), SeenAt>,
    pub graph: Map<Seq<char>, GraphUserContent>,
}

/// The directory cache of an account.
#[derive(Debug)]
pub struct DirectoryCache {
    closed: bool,
    users: KeyMap<String, UserDirectoryRecord>,
    reasons: KeyMap<KnownReason, SeenAt>,
    graph: KeyMap<String, SearchGraphUser>,
}

impl View for DirectoryCache {
    type V = CacheContent;

    closed spec fn view(&self) -> CacheContent {
        CacheContent {
            closed: self.closed,
            users: bindings(self.users),
            reasons: Map::new(
                |k: (Seq<char>, Seq<char>)| self.reasons.lookup(k) is Some,
                |k: (Seq<char>, Seq<char>)| self.reasons.lookup(k)->0,
            ),
            graph: bindings(self.graph),
        }
    }
}

/// Everything that a cache holds of an account: what is written to disk of it.
#[derive(Debug)]
pub struct CachedAccount {
    pub account_id_hex: String,
    pub user: Option<UserDirectoryRecord>,
    /// Why the account is known, and since when.
    pub reasons: KeyMap<String, SeenAt>,
    pub graph: Option<SearchGraphUser>,
}

/// The content of a [`CachedAccount`].
#[verifier::ext_equal]
pub struct CachedAccountContent {
    pub account_id_hex: Seq<char>,
    pub user: Option<EntryContent>,
    pub reasons: Map<Seq<char>, SeenAt>,
    pub graph: Option<GraphUserContent>,
}

impl DeepView for CachedAccount {
    type V = CachedAccountContent;

    open spec fn deep_view(&self) -> CachedAccountContent {
        CachedAccountContent {
            account_id_hex: self.account_id_hex@,
            user: self.user.deep_view(),
            reasons: Map::new(
                |r: Seq<char>| self.reasons.lookup(r) is Some,
                |r: Seq<char>| self.reasons.lookup(r)->0,
            ),
            graph: self.graph.deep_view(),
        }
    }
}

/// What a cache holds of an account.
pub open spec fn account_content(cache: CacheContent, account: Seq<char>) -> CachedAccountContent {
    CachedAccountContent {
        account_id_hex: account,
        user: find(cache.users, account),
        reasons: Map::new(
            |r: Seq<char>| cache.reasons.dom().contains((account, r)),
            |r: Seq<char>| cache.reasons[(account, r)],
        ),
        graph: find(cache.graph, account),
    }
}

/// What keeps an account from being taken back: a follow or a source relay that
/// is listed twice.
pub open spec fn account_fault(cached: CachedAccountContent) -> Option<ErrorContent> {
    let user = match cached.user {
        Some(entry) => entry_fault(entry),
        None => None,
    };
    match user {
        Some(error) => Some(error),
        None => match cached.graph {
            Some(graph) => graph_fault(graph.follows),
            None => None,
        },
    }
}

/// The cache after it took back what was held of an account. The entry is kept under
/// the account, as the account's own.
pub open spec fn with_account(cache: CacheContent, cached: CachedAccountContent) -> CacheContent {
    CacheContent {
        closed: cache.closed,
        users: match cached.user {
            Some(entry) => cache.users.insert(
                cached.account_id_hex,
                EntryContent { account_id_hex: cached.account_id_hex, ..entry },
            ),
            None => cache.users,
        },
        reasons: Map::new(
            |k: (Seq<char>, Seq<char>)|
                (k.0 == cached.account_id_hex && cached.reasons.dom().contains(k.1))
                    || cache.reasons.dom().contains(k),
            |k: (Seq<char>, Seq<char>)|
                if k.0 == cached.account_id_hex && cached.reasons.dom().contains(k.1) {
                    cached.reasons[k.1]
                } else {
                    cache.reasons[k]
                },
        ),
        graph: match cached.graph {
            Some(graph) => cache.graph.insert(cached.account_id_hex, graph),
            None => cache.graph,
        },
    }
}

/// The bindings of a map, by content.
pub open spec fn bindings<V: DeepView>(map: KeyMap<String, V>) -> Map<Seq<char>, V::V> {
    Map::new(
        |k: Seq<char>| map.lookup(k) is Some,
        |k: Seq<char>| map.lookup(k)->0.deep_view(),
    )
}

/// The entry of a map, where there is one.
pub open spec fn find<K, V>(map: Map<K, V>, key: K) -> Option<V> {
    if map.dom().contains(key) {
        Some(map[key])
    } else {
        None
    }
}

pub open spec fn closed_error() -> ErrorContent {
    ErrorContent::Storage("directory cache is closed"@)
}

/// What keeps an entry from being stored: a follow or a source relay that it
/// lists twice.
pub open spec fn entry_fault(entry: EntryContent) -> Option<ErrorContent> {
    if !entry.follows.no_duplicates() {
        Some(
            ErrorContent::Storage(
                "UNIQUE constraint failed: directory_user_follows.account_id_hex, directory_user_follows.follow_account_id_hex"@,
            ),
        )
    } else if !entry.follow_source_relays.no_duplicates() {
        Some(
            ErrorContent::Storage(
                "UNIQUE constraint failed: directory_follow_source_relays.account_id_hex, directory_follow_source_relays.relay_url"@,
            ),
        )
    } else {
        None
    }
}

/// What keeps follows from being stored in the graph.
pub open spec fn graph_fault(follows: Seq<Seq<char>>) -> Option<ErrorContent> {
    if follows.no_duplicates() {
        None
    } else {
        Some(
            ErrorContent::Storage(
                "UNIQUE constraint failed: directory_search_graph_follows.account_id_hex, directory_search_graph_follows.follow_account_id_hex"@,
            ),
        )
    }
}

/// A time that fits the storage's integers.
pub open spec fn stored_time(time: Option<u64>) -> Option<i64> {
    match time {
        Some(time) => if time <= i64::MAX {
            Some(time as i64)
        } else {
            None
        },
        None => None,
    }
}

/// The graph's account after a record of it came.
pub open spec fn merged_graph_user(old: Option<GraphUserContent>, record: GraphRecordContent)
    -> GraphUserContent {
    GraphUserContent {
        npub: record.npub,
        profile: record.profile,
        metadata_updated_at: stored_time(record.metadata_updated_at),
        metadata_expires_at: stored_time(record.metadata_expires_at),
        follows_known: if record.follows is Some {
            true
        } else if old is Some {
            old->0.follows_known
        } else {
            false
        },
        follows: if record.follows is Some {
            record.follows->0
        } else if old is Some {
            old->0.follows
        } else {
            Seq::empty()
        },
    }
}

/// The cache after a record of the search graph was stored.
pub open spec fn with_graph_record(cache: CacheContent, record: GraphRecordContent)
    -> CacheContent {
    CacheContent {
        graph: cache.graph.insert(
            record.account_id_hex,
            merged_graph_user(find(cache.graph, record.account_id_hex), record),
        ),
        ..cache
    }
}

/// What storing an entry tells the search graph. An entry without follows does not
/// say that the account follows nobody.
pub open spec fn snapshot(entry: EntryContent) -> GraphRecordContent {
    GraphRecordContent {
        account_id_hex: entry.account_id_hex,
        npub: entry.npub,
        profile: entry.profile,
        follows: if entry.follows.len() > 0 {
            Some(entry.follows)
        } else {
            None
        },
        metadata_updated_at: match entry.profile {
            Some(profile) => Some(profile.created_at),
            None => None,
        },
        metadata_expires_at: None,
    }
}

/// The times at which an account was known for a reason, after it was again.
pub open spec fn seen_again(old: Option<SeenAt>, now: i64) -> SeenAt {
    match old {
        Some(seen) => SeenAt { first_seen_at: seen.first_seen_at, last_seen_at: now },
        None => SeenAt { first_seen_at: now, last_seen_at: now },
    }
}

/// The cache after an entry was stored for a reason.
pub open spec fn with_entry(
    cache: CacheContent,
    entry: EntryContent,
    reason: Seq<char>,
    now: i64,
) -> CacheContent {
    with_graph_record(
        CacheContent {
            users: cache.users.insert(entry.account_id_hex, entry),
            reasons: cache.reasons.insert(
                (entry.account_id_hex, reason),
                seen_again(find(cache.reasons, (entry.account_id_hex, reason)), now),
            ),
            ..cache
        },
        snapshot(entry),
    )
}

/// What the search graph knows of an account at a time. Only the profile expires.
pub open spec fn graph_entry(
    cache: CacheContent,
    account: Seq<char>,
    now: i64,
) -> Option<EntryContent> {
    match find(cache.graph, account) {
        None => None,
        Some(user) => Some(
            EntryContent {
                account_id_hex: account,
                npub: user.npub,
                local_account: None,
                profile: if user.metadata_expires_at is Some && user.metadata_expires_at->0 <= now {
                    None
                } else {
                    user.profile
                },
                follows: if user.follows_known {
                    user.follows
                } else {
                    Seq::empty()
                },
                follow_source_relays: Seq::empty(),
                relay_lists: no_relay_lists(),
                key_package: None,
            },
        ),
    }
}

/// What a search finds of an account: the known user, or else the graph's account.
pub open spec fn search_entry(
    cache: CacheContent,
    account: Seq<char>,
    now: i64,
) -> Option<EntryContent> {
    match find(cache.users, account) {
        Some(entry) => Some(entry),
        None => graph_entry(cache, account, now),
    }
}

/// The follows that the search graph knows of an account.
pub open spec fn known_follows(cache: CacheContent, account: Seq<char>) -> Option<Seq<Seq<char>>> {
    match find(cache.graph, account) {
        Some(user) => if user.follows_known {
            Some(user.follows)
        } else {
            None
        },
        None => None,
    }
}

/// Whether a cached key package is in a slot.
pub open spec fn in_slot(package: DirectoryKeyPackageContent, slot: Option<Seq<char>>) -> bool {
    slot is None || package.key_package_id == slot->0
}

/// The entry without its key package.
pub open spec fn scrubbed(entry: EntryContent) -> EntryContent {
    EntryContent { key_package: None, ..entry }
}

/// The users of a map, ordered by account.
pub fn list_ascending(users: &KeyMap<String, UserDirectoryRecord>) -> (entries: Vec<
    UserDirectoryRecord,
>)
    ensures
        lists_users(entries.deep_view(), bindings(*users)),
{
    let mut names: Vec<String> = Vec::new();
    let count = users.len();
    let mut i: usize = 0;
    while i < count
        invariant
            i <= count,
            count == users.sequence().len(),
            names@.len() == i,
            forall|j: int| 0 <= j < i ==> (#[trigger] names@[j])@ == users.sequence()[j],
        decreases count - i,
    {
        names.push(users.key_at(i).clone());
        i += 1;
    }
    assert(names.deep_view() =~= users.sequence());
    let sorted = sort_dedup(names);
    let ghost keys = sorted.deep_view();
    let mut entries: Vec<UserDirectoryRecord> = Vec::new();
    let mut k: usize = 0;
    while k < sorted.len()
        invariant
            k <= sorted@.len(),
            keys == sorted.deep_view(),
            forall|t: Seq<char>| #[trigger] keys.contains(t) <==> users.sequence().contains(t),
            entries@.len() == k,
            forall|j: int|
                0 <= j < k ==> (#[trigger] entries@[j]).deep_view() == bindings(*users)[keys[j]],
        decreases sorted.len() - k,
    {
        assert(keys[k as int] == sorted@[k as int]@);
        assert(keys.contains(keys[k as int]));
        match users.get(&sorted[k]) {
            Some(entry) => {
                assert(bindings(*users).dom().contains(keys[k as int]));
                entries.push(entry.duplicate());
            },
            None => {
                assert(false);
            },
        }
        k += 1;
    }
    assert forall|t: Seq<char>| #[trigger]
        bindings(*users).dom().contains(t) <==> keys.contains(t) by {}
    assert(entries.deep_view().len() == keys.len());
    assert(lists_by(entries.deep_view(), bindings(*users), keys));
    entries
}

/// Whether a list repeats nothing.
pub fn all_distinct(texts: &Vec<String>) -> (distinct: bool)
    ensures
        distinct == texts.deep_view().no_duplicates(),
{
    let ghost all = texts.deep_view();
    let mut seen: Vec<String> = Vec::new();
    let mut i: usize = 0;
    assert(seen.deep_view() =~= all.take(0));
    while i < texts.len()
        invariant
            i <= texts@.len(),
            all == texts.deep_view(),
            seen.deep_view() == all.take(i as int),
            all.take(i as int).no_duplicates(),
        decreases texts.len() - i,
    {
        assert(all[i as int] == texts@[i as int]@);
        if list_contains(&seen, &texts[i]) {
            proof {
                let j = choose|j: int| 0 <= j < seen.deep_view().len() && seen.deep_view()[j]
                    == texts@[i as int]@;
                assert(all.take(i as int)[j] == all[j]);
                assert(all[j] == all[i as int]);
            }
            return false;
        }
        let ghost before = seen.deep_view();
        seen.push(texts[i].clone());
        assert(seen.deep_view() =~= before.push(texts@[i as int]@));
        assert(all.take(i + 1) =~= all.take(i as int).push(all[i as int]));
        assert forall|a: int, b: int| 0 <= a < b < i + 1 implies #[trigger] all.take(i + 1)[a]
            != #[trigger] all.take(i + 1)[b] by {
            if b == i {
                assert(before.contains(before[a]));
            } else {
                assert(all.take(i as int)[a] != all.take(i as int)[b]);
            }
        }
        i += 1;
    }
    assert(all.take(all.len() as int) =~= all);
    true
}

fn entry_problem(entry: &UserDirectoryRecord) -> (fault: Option<AppError>)
    ensures
        fault.deep_view() == entry_fault(entry.deep_view()),
{
    if !all_distinct(&entry.follows) {
        Some(
            AppError::Storage(
                "UNIQUE constraint failed: directory_user_follows.account_id_hex, directory_user_follows.follow_account_id_hex".to_owned(),
            ),
        )
    } else if !all_distinct(&entry.follow_source_relays) {
        Some(
            AppError::Storage(
                "UNIQUE constraint failed: directory_follow_source_relays.account_id_hex, directory_follow_source_relays.relay_url".to_owned(),
            ),
        )
    } else {
        None
    }
}

fn graph_problem(follows: &Vec<String>) -> (fault: Option<AppError>)
    ensures
        fault.deep_view() == graph_fault(follows.deep_view()),
{
    if all_distinct(follows) {
        None
    } else {
        Some(
            AppError::Storage(
                "UNIQUE constraint failed: directory_search_graph_follows.account_id_hex, directory_search_graph_follows.follow_account_id_hex".to_owned(),
            ),
        )
    }
}

fn storable_time(time: Option<u64>) -> (stored: Option<i64>)
    ensures
        stored == stored_time(time),
{
    match time {
        Some(time) => if time <= 9_223_372_036_854_775_807 {
            Some(time as i64)
        } else {
            None
        },
        None => None,
    }
}

fn copy_follows(follows: &Option<Vec<String>>) -> (copy: Option<Vec<String>>)
    ensures
        copy.deep_view() == follows.deep_view(),
{
    match follows {
        Some(follows) => Some(copy_list(follows)),
        None => None,
    }
}

fn closed_failure() -> (error: AppError)
    ensures
        error.deep_view() == closed_error(),
{
    AppError::Storage("directory cache is closed".to_owned())
}

impl DirectoryCache {
    /// A cache that holds nothing.
    pub fn new() -> (cache: Self)
        ensures
            cache@ == (CacheContent {
                closed: false,
                users: Map::empty(),
                reasons: Map::empty(),
                graph: Map::empty(),
            }),
    {
        let cache = DirectoryCache {
            closed: false,
            users: KeyMap::new(),
            reasons: KeyMap::new(),
            graph: KeyMap::new(),
        };
        assert(cache@ =~= CacheContent {
            closed: false,
            users: Map::empty(),
            reasons: Map::empty(),
            graph: Map::empty(),
        });
        cache
    }

    /// Closes the cache. Every later read and write fails.
    pub fn close(&mut self)
        ensures
            final(self)@ == (CacheContent { closed: true, ..old(self)@ }),
    {
        self.closed = true;
    }

    /// The known user with an account.
    pub fn entry(&self, account_id_hex: &str) -> (result: Result<
        Option<UserDirectoryRecord>,
        AppError,
    >)
        ensures
            match result {
                Ok(entry) => !self@.closed && entry.deep_view() == find(
                    self@.users,
                    account_id_hex@,
                ),
                Err(error) => self@.closed && error.deep_view() == closed_error(),
            },
    {
        if self.closed {
            return Err(closed_failure());
        }
        match self.users.get(&account_id_hex.to_owned()) {
            Some(entry) => Ok(Some(entry.duplicate())),
            None => Ok(None),
        }
    }

    /// Every known user, ordered by account.
    pub fn entries(&self) -> (result: Result<Vec<UserDirectoryRecord>, AppError>)
        ensures
            match result {
                Ok(entries) => {
                    &&& !self@.closed
                    &&& lists_users(entries.deep_view(), self@.users)
                },
                Err(error) => self@.closed && error.deep_view() == closed_error(),
            },
    {
        if self.closed {
            return Err(closed_failure());
        }
        Ok(list_ascending(&self.users))
    }

    /// What a search finds of an account at a time.
    pub fn search_record(&self, account_id_hex: &str, now: i64) -> (result: Result<
        Option<UserDirectoryRecord>,
        AppError,
    >)
        ensures
            match result {
                Ok(entry) => !self@.closed && entry.deep_view() == search_entry(
                    self@,
                    account_id_hex@,
                    now,
                ),
                Err(error) => self@.closed && error.deep_view() == closed_error(),
            },
    {
        match self.entry(account_id_hex) {
            Err(error) => Err(error),
            Ok(Some(entry)) => Ok(Some(entry)),
            Ok(None) => self.search_graph_record(account_id_hex, now),
        }
    }

    /// What the search graph knows of an account at a time.
    pub fn search_graph_record(&self, account_id_hex: &str, now: i64) -> (result: Result<
        Option<UserDirectoryRecord>,
        AppError,
    >)
        ensures
            match result {
                Ok(entry) => !self@.closed && entry.deep_view() == graph_entry(
                    self@,
                    account_id_hex@,
                    now,
                ),
                Err(error) => self@.closed && error.deep_view() == closed_error(),
            },
    {
        if self.closed {
            return Err(closed_failure());
        }
        match self.graph.get(&account_id_hex.to_owned()) {
            None => Ok(None),
            Some(user) => {
                let follows = if user.follows_known {
                    copy_list(&user.follows)
                } else {
                    let none: Vec<String> = Vec::new();
                    assert(none.deep_view() =~= Seq::<Seq<char>>::empty());
                    none
                };
                let expired = match user.metadata_expires_at {
                    Some(expires_at) => expires_at <= now,
                    None => false,
                };
                let profile = if expired {
                    None
                } else {
                    copy_optional(&user.profile)
                };
                let follow_source_relays: Vec<String> = Vec::new();
                assert(follow_source_relays.deep_view() =~= Seq::<Seq<char>>::empty());
                Ok(
                    Some(
                        UserDirectoryRecord {
                            account_id_hex: account_id_hex.to_owned(),
                            npub: user.npub.clone(),
                            local_account: None,
                            profile,
                            follows,
                            follow_source_relays,
                            relay_lists: AccountRelayListStatus::empty(),
                            key_package: None,
                        },
                    ),
                )
            },
        }
    }

    /// The follows that the search graph knows of an account. `None` means that no
    /// contact list of it was seen; an empty list, that it follows nobody.
    pub fn search_graph_follows(&self, account_id_hex: &str) -> (result: Result<
        Option<Vec<String>>,
        AppError,
    >)
        ensures
            match result {
                Ok(follows) => !self@.closed && follows.deep_view() == known_follows(
                    self@,
                    account_id_hex@,
                ),
                Err(error) => self@.closed && error.deep_view() == closed_error(),
            },
    {
        if self.closed {
            return Err(closed_failure());
        }
        match self.graph.get(&account_id_hex.to_owned()) {
            Some(user) => if user.follows_known {
                Ok(Some(copy_list(&user.follows)))
            } else {
                Ok(None)
            },
            None => Ok(None),
        }
    }

    /// Stores an entry.
    pub fn put(&mut self, entry: &UserDirectoryRecord, now: i64) -> (result: Result<(), AppError>)
        ensures
            put_outcome(old(self)@, entry.deep_view(), "directory"@, now, final(self)@, result),
    {
        self.put_with_reason(entry, "directory", now)
    }

    /// Stores an entry for a reason.
    pub fn put_with_reason(&mut self, entry: &UserDirectoryRecord, reason: &str, now: i64)
        -> (result: Result<(), AppError>)
        ensures
            put_outcome(old(self)@, entry.deep_view(), reason@, now, final(self)@, result),
    {
        if self.closed {
            return Err(closed_failure());
        }
        if let Some(error) = entry_problem(entry) {
            return Err(error);
        }
        self.store(entry, reason, now);
        Ok(())
    }

    fn store(&mut self, entry: &UserDirectoryRecord, reason: &str, now: i64)
        requires
            entry_fault(entry.deep_view()) is None,
        ensures
            final(self)@ == with_entry(old(self)@, entry.deep_view(), reason@, now),
    {
        let ghost before = self@;
        let ghost e = entry.deep_view();
        let _ = self.users.insert(entry.account_id_hex.clone(), entry.duplicate());
        assert(self@.users =~= before.users.insert(e.account_id_hex, e));
        let key = KnownReason {
            account_id_hex: entry.account_id_hex.clone(),
            reason: reason.to_owned(),
        };
        let seen = match self.reasons.get(&key) {
            Some(seen) => SeenAt { first_seen_at: seen.first_seen_at, last_seen_at: now },
            None => SeenAt { first_seen_at: now, last_seen_at: now },
        };
        assert(seen == seen_again(find(before.reasons, (e.account_id_hex, reason@)), now));
        let _ = self.reasons.insert(key, seen);
        assert(self@.reasons =~= before.reasons.insert((e.account_id_hex, reason@), seen));
        let follows = if entry.follows.len() > 0 {
            Some(copy_list(&entry.follows))
        } else {
            None
        };
        let metadata_updated_at = match &entry.profile {
            Some(profile) => Some(profile.created_at),
            None => None,
        };
        let record = DirectorySearchGraphRecord {
            account_id_hex: entry.account_id_hex.clone(),
            npub: entry.npub.clone(),
            profile: copy_optional(&entry.profile),
            follows,
            metadata_updated_at,
            metadata_expires_at: None,
        };
        assert(record.deep_view() == snapshot(e));
        self.store_graph_record(&record);
    }

    fn store_graph_record(&mut self, record: &DirectorySearchGraphRecord)
        ensures
            final(self)@ == with_graph_record(old(self)@, record.deep_view()),
    {
        let ghost before = self@;
        let ghost r = record.deep_view();
        let ghost old_user = find(before.graph, r.account_id_hex);
        let mut follows_known = false;
        let mut follows: Vec<String> = Vec::new();
        assert(follows.deep_view() =~= Seq::<Seq<char>>::empty());
        match copy_follows(&record.follows) {
            Some(list) => {
                follows_known = true;
                follows = list;
            },
            None => match self.graph.get(&record.account_id_hex) {
                Some(user) => {
                    follows_known = user.follows_known;
                    follows = copy_list(&user.follows);
                },
                None => {},
            },
        }
        let user = SearchGraphUser {
            npub: record.npub.clone(),
            profile: copy_optional(&record.profile),
            metadata_updated_at: storable_time(record.metadata_updated_at),
            metadata_expires_at: storable_time(record.metadata_expires_at),
            follows_known,
            follows,
        };
        assert(user.deep_view() == merged_graph_user(old_user, r));
        let _ = self.graph.insert(record.account_id_hex.clone(), user);
        assert(self@.graph =~= with_graph_record(before, r).graph);
    }

    /// Stores what a search learned of an account. The account does not become a
    /// known user.
    pub fn put_search_graph_record(&mut self, record: &DirectorySearchGraphRecord) -> (result: Result<
        (),
        AppError,
    >)
        ensures
            verdict(result) == (if old(self)@.closed {
                Some(closed_error())
            } else {
                match record.deep_view().follows {
                    Some(follows) => graph_fault(follows),
                    None => None,
                }
            }),
            final(self)@ == (if result is Ok {
                with_graph_record(old(self)@, record.deep_view())
            } else {
                old(self)@
            }),
    {
        if self.closed {
            return Err(closed_failure());
        }
        if let Some(follows) = &record.follows {
            if let Some(error) = graph_problem(follows) {
                return Err(error);
            }
        }
        self.store_graph_record(record);
        Ok(())
    }

    /// Replaces the follows that the search graph knows of an account, and keeps
    /// its profile. Neither the account nor its follows become known users.
    pub fn remember_search_graph_follows(
        &mut self,
        account_id_hex: &str,
        npub: &str,
        follows: &Vec<String>,
    ) -> (result: Result<(), AppError>)
        ensures
            verdict(result) == (if old(self)@.closed {
                Some(closed_error())
            } else {
                graph_fault(follows.deep_view())
            }),
            final(self)@ == (if result is Ok {
                with_graph_follows(old(self)@, account_id_hex@, npub@, follows.deep_view())
            } else {
                old(self)@
            }),
    {
        if self.closed {
            return Err(closed_failure());
        }
        if let Some(error) = graph_problem(follows) {
            return Err(error);
        }
        let ghost before = self@;
        let account = account_id_hex.to_owned();
        let (profile, metadata_updated_at, metadata_expires_at) = match self.graph.get(&account) {
            Some(user) => (
                copy_optional(&user.profile),
                user.metadata_updated_at,
                user.metadata_expires_at,
            ),
            None => (None, None, None),
        };
        let user = SearchGraphUser {
            npub: npub.to_owned(),
            profile,
            metadata_updated_at,
            metadata_expires_at,
            follows_known: true,
            follows: copy_list(follows),
        };
        let _ = self.graph.insert(account, user);
        assert(self@.graph =~= with_graph_follows(
            before,
            account_id_hex@,
            npub@,
            follows.deep_view(),
        ).graph);
        Ok(())
    }

    /// Removes the cached key package of an account where it is in a slot, and
    /// nothing else. Returns whether it did.
    pub fn clear_key_package_if_slot(
        &mut self,
        account_id_hex: &str,
        stable_slot_id: Option<String>,
    ) -> (result: Result<bool, AppError>)
        ensures
            match result {
                Ok(cleared) => {
                    &&& !old(self)@.closed
                    &&& cleared == has_package_in_slot(
                        old(self)@,
                        account_id_hex@,
                        stable_slot_id.deep_view(),
                    )
                    &&& final(self)@ == (if cleared {
                        CacheContent {
                            users: old(self)@.users.insert(
                                account_id_hex@,
                                scrubbed(old(self)@.users[account_id_hex@]),
                            ),
                            ..old(self)@
                        }
                    } else {
                        old(self)@
                    })
                },
                Err(error) => {
                    &&& old(self)@.closed
                    &&& error.deep_view() == closed_error()
                    &&& final(self)@ == old(self)@
                },
            },
    {
        if self.closed {
            return Err(closed_failure());
        }
        let ghost before = self@;
        let account = account_id_hex.to_owned();
        let kept = match self.users.get(&account) {
            None => return Ok(false),
            Some(entry) => {
                let matches = match &entry.key_package {
                    None => false,
                    Some(package) => match &stable_slot_id {
                        Some(slot) => package.key_package_id.same(slot),
                        None => true,
                    },
                };
                if !matches {
                    return Ok(false);
                }
                let mut kept = entry.duplicate();
                kept.key_package = None;
                kept
            },
        };
        let _ = self.users.insert(account, kept);
        assert(self@.users =~= before.users.insert(
            account_id_hex@,
            scrubbed(before.users[account_id_hex@]),
        ));
        Ok(true)
    }

    /// Stores the entries of an older cache, all of them or none.
    pub fn migrate_legacy_json_records(&mut self, entries: &Vec<UserDirectoryRecord>, now: i64)
        -> (result: Result<(), AppError>)
        ensures
            verdict(result) == (if old(self)@.closed {
                Some(closed_error())
            } else {
                first_entry_fault(entries.deep_view())
            }),
            final(self)@ == (if result is Ok {
                with_entries(old(self)@, entries.deep_view(), "directory"@, now)
            } else {
                old(self)@
            }),
    {
        if self.closed {
            return Err(closed_failure());
        }
        let ghost all = entries.deep_view();
        let ghost start = self@;
        let mut i: usize = 0;
        assert(all.skip(0) =~= all);
        while i < entries.len()
            invariant
                i <= entries@.len(),
                all == entries.deep_view(),
                first_entry_fault(all) == first_entry_fault(all.skip(i as int)),
                forall|j: int| 0 <= j < i ==> entry_fault(#[trigger] all[j]) is None,
                self@ == start,
                start == old(self)@,
                !start.closed,
            decreases entries.len() - i,
        {
            assert(all.skip(i as int)[0] == entries@[i as int].deep_view());
            assert(all.skip(i as int).drop_first() =~= all.skip(i + 1));
            if let Some(error) = entry_problem(&entries[i]) {
                return Err(error);
            }
            i += 1;
        }
        let mut k: usize = 0;
        assert(all.take(0) =~= Seq::<EntryContent>::empty());
        while k < entries.len()
            invariant
                k <= entries@.len(),
                all == entries.deep_view(),
                forall|j: int| 0 <= j < all.len() ==> entry_fault(#[trigger] all[j]) is None,
                self@ == with_entries(start, all.take(k as int), "directory"@, now),
            decreases entries.len() - k,
        {
            assert(all[k as int] == entries@[k as int].deep_view());
            assert(all.take(k + 1).drop_last() =~= all.take(k as int));
            assert(all.take(k + 1).last() == entries@[k as int].deep_view());
            self.store(&entries[k], "directory", now);
            k += 1;
        }
        assert(all.take(all.len() as int) =~= all);
        Ok(())
    }

    /// Everything that the cache holds of an account.
    pub fn cached_account(&self, account_id_hex: &str) -> (result: Result<CachedAccount, AppError>)
        ensures
            match result {
                Ok(cached) => !self@.closed && cached.deep_view() == account_content(
                    self@,
                    account_id_hex@,
                ),
                Err(error) => self@.closed && error.deep_view() == closed_error(),
            },
    {
        if self.closed {
            return Err(closed_failure());
        }
        let account = account_id_hex.to_owned();
        let user = match self.users.get(&account) {
            Some(entry) => Some(entry.duplicate()),
            None => None,
        };
        let graph = match self.graph.get(&account) {
            Some(graph) => Some(graph.duplicate()),
            None => None,
        };
        let mut reasons: KeyMap<String, SeenAt> = KeyMap::new();
        let count = self.reasons.len();
        let ghost keys = self.reasons.sequence();
        let mut i: usize = 0;
        while i < count
            invariant
                i <= count,
                count == keys.len(),
                keys == self.reasons.sequence(),
                keys.no_duplicates(),
                account@ == account_id_hex@,
                forall|r: Seq<char>|
                    #[trigger] reasons.lookup(r) == (if keys.take(i as int).contains(
                        (account@, r),
                    ) {
                        self.reasons.lookup((account@, r))
                    } else {
                        None
                    }),
            decreases count - i,
        {
            let key = self.reasons.key_at(i);
            let ghost grown = keys.take(i + 1);
            assert(grown =~= keys.take(i as int).push(keys[i as int]));
            assert(forall|k: (Seq<char>, Seq<char>)|
                #[trigger] grown.contains(k) ==> keys.take(i as int).contains(k) || k
                    == keys[i as int]);
            assert(forall|k: (Seq<char>, Seq<char>)|
                keys.take(i as int).contains(k) ==> #[trigger] grown.contains(k)) by {
                assert(forall|j: int| 0 <= j < i ==> #[trigger] grown[j] == keys.take(i as int)[j]);
            }
            assert(grown.contains(keys[i as int])) by {
                assert(grown[i as int] == keys[i as int]);
            }
            if key.account_id_hex.same(&account) {
                let seen = *self.reasons.value_at(i);
                let _ = reasons.insert(key.reason.clone(), seen);
            }
            i += 1;
        }
        assert(keys.take(count as int) =~= keys);
        let cached = CachedAccount { account_id_hex: account, user, reasons, graph };
        assert(cached.deep_view() =~= account_content(self@, account_id_hex@));
        Ok(cached)
    }

    /// Takes back everything that a cache held of an account.
    pub fn restore_account(&mut self, cached: &CachedAccount) -> (result: Result<(), AppError>)
        ensures
            verdict(result) == (if old(self)@.closed {
                Some(closed_error())
            } else {
                account_fault(cached.deep_view())
            }),
            final(self)@ == (if result is Ok {
                with_account(old(self)@, cached.deep_view())
            } else {
                old(self)@
            }),
    {
        if self.closed {
            return Err(closed_failure());
        }
        if let Some(entry) = &cached.user {
            if let Some(error) = entry_problem(entry) {
                return Err(error);
            }
        }
        if let Some(graph) = &cached.graph {
            if let Some(error) = graph_problem(&graph.follows) {
                return Err(error);
            }
        }
        let ghost before = self@;
        let ghost content = cached.deep_view();
        if let Some(entry) = &cached.user {
            let mut kept = entry.duplicate();
            kept.account_id_hex = cached.account_id_hex.clone();
            let _ = self.users.insert(cached.account_id_hex.clone(), kept);
        }
        assert(self@.users =~= with_account(before, content).users);
        if let Some(graph) = &cached.graph {
            let _ = self.graph.insert(cached.account_id_hex.clone(), graph.duplicate());
        }
        assert(self@.graph =~= with_account(before, content).graph);
        let ghost held = self.reasons;
        let ghost keys = cached.reasons.sequence();
        let count = cached.reasons.len();
        let mut i: usize = 0;
        while i < count
            invariant
                i <= count,
                count == keys.len(),
                keys == cached.reasons.sequence(),
                self.closed == before.closed,
                self@.users == with_account(before, content).users,
                self@.graph == with_account(before, content).graph,
                forall|k: (Seq<char>, Seq<char>)|
                    #[trigger] self.reasons.lookup(k) == (if k.0 == cached.account_id_hex@
                        && keys.take(i as int).contains(k.1) {
                        cached.reasons.lookup(k.1)
                    } else {
                        held.lookup(k)
                    }),
            decreases count - i,
        {
            let reason = cached.reasons.key_at(i).clone();
            let ghost grown = keys.take(i + 1);
            assert(grown =~= keys.take(i as int).push(keys[i as int]));
            assert(forall|r: Seq<char>|
                #[trigger] grown.contains(r) ==> keys.take(i as int).contains(r) || r
                    == keys[i as int]);
            assert(forall|r: Seq<char>|
                keys.take(i as int).contains(r) ==> #[trigger] grown.contains(r)) by {
                assert(forall|j: int| 0 <= j < i ==> #[trigger] grown[j] == keys.take(i as int)[j]);
            }
            assert(grown.contains(keys[i as int])) by {
                assert(grown[i as int] == keys[i as int]);
            }
            let seen = *cached.reasons.value_at(i);
            let key = KnownReason { account_id_hex: cached.account_id_hex.clone(), reason };
            let _ = self.reasons.insert(key, seen);
            i += 1;
        }
        assert(keys.take(count as int) =~= keys);
        assert(self@.reasons =~= with_account(before, content).reasons);
        assert(self@ =~= with_account(before, content));
        Ok(())
    }
}

/// The cache after the follows of an account were stored in its graph.
pub open spec fn with_graph_follows(
    cache: CacheContent,
    account: Seq<char>,
    npub: Seq<char>,
    follows: Seq<Seq<char>>,
) -> CacheContent {
    let user = match find(cache.graph, account) {
        Some(user) => GraphUserContent { npub, follows_known: true, follows, ..user },
        None => GraphUserContent {
            npub,
            profile: None,
            metadata_updated_at: None,
            metadata_expires_at: None,
            follows_known: true,
            follows,
        },
    };
    CacheContent { graph: cache.graph.insert(account, user), ..cache }
}

/// Whether an account's cached key package is in a slot.
pub open spec fn has_package_in_slot(
    cache: CacheContent,
    account: Seq<char>,
    slot: Option<Seq<char>>,
) -> bool {
    match find(cache.users, account) {
        Some(entry) => entry.key_package is Some && in_slot(entry.key_package->0, slot),
        None => false,
    }
}

/// What storing an entry does.
pub open spec fn put_outcome(
    before: CacheContent,
    entry: EntryContent,
    reason: Seq<char>,
    now: i64,
    after: CacheContent,
    result: Result<(), AppError>,
) -> bool {
    &&& verdict(result) == (if before.closed {
        Some(closed_error())
    } else {
        entry_fault(entry)
    })
    &&& after == (if result is Ok {
        with_entry(before, entry, reason, now)
    } else {
        before
    })
}

/// The first entry of a list that cannot be stored.
pub open spec fn first_entry_fault(entries: Seq<EntryContent>) -> Option<ErrorContent>
    decreases entries.len(),
{
    if entries.len() == 0 {
        None
    } else if entry_fault(entries[0]) is Some {
        entry_fault(entries[0])
    } else {
        first_entry_fault(entries.drop_first())
    }
}

/// The cache after a list of entries was stored.
pub open spec fn with_entries(
    cache: CacheContent,
    entries: Seq<EntryContent>,
    reason: Seq<char>,
    now: i64,
) -> CacheContent
    decreases entries.len(),
{
    if entries.len() == 0 {
        cache
    } else {
        with_entry(with_entries(cache, entries.drop_last(), reason, now), entries.last(), reason, now)
    }
}

/// Whether a list holds exactly the users with the given accounts, in that order.
pub open spec fn lists_by(
    entries: Seq<EntryContent>,
    users: Map<Seq<char>, EntryContent>,
    accounts: Seq<Seq<char>>,
) -> bool {
    &&& is_ascending(accounts)
    &&& forall|t: Seq<char>| #[trigger] accounts.contains(t) <==> users.dom().contains(t)
    &&& entries.len() == accounts.len()
    &&& forall|i: int| 0 <= i < entries.len() ==> #[trigger] entries[i] == users[accounts[i]]
}

/// Whether a list holds exactly the known users, ordered by account.
pub open spec fn lists_users(
    entries: Seq<EntryContent>,
    users: Map<Seq<char>, EntryContent>,
) -> bool {
    exists|accounts: Seq<Seq<char>>| #[trigger] lists_by(entries, users, accounts)
}

/// What was stored is read back, and no other account is affected.
pub proof fn law_stored_entry_is_read_back(
    cache: CacheContent,
    entry: EntryContent,
    reason: Seq<char>,
    now: i64,
    other: Seq<char>,
)
    ensures
        find(with_entry(cache, entry, reason, now).users, entry.account_id_hex) == Some(entry),
        other != entry.account_id_hex ==> find(
            with_entry(cache, entry, reason, now).users,
            other,
        ) == find(cache.users, other),
        search_entry(with_entry(cache, entry, reason, now), entry.account_id_hex, now) == Some(
            entry,
        ),
{
}

/// Neither what a search learns of an account nor its follows make it a known
/// user.
pub proof fn law_search_graph_promotes_nobody(
    cache: CacheContent,
    record: GraphRecordContent,
    account: Seq<char>,
    npub: Seq<char>,
    follows: Seq<Seq<char>>,
)
    ensures
        with_graph_record(cache, record).users == cache.users,
        with_graph_follows(cache, account, npub, follows).users == cache.users,
{
}

/// Storing an entry without follows does not erase the follows that the search
/// graph knows.
pub proof fn law_promotion_keeps_graph_follows(
    cache: CacheContent,
    entry: EntryContent,
    reason: Seq<char>,
    now: i64,
)
    requires
        entry.follows.len() == 0,
    ensures
        known_follows(with_entry(cache, entry, reason, now), entry.account_id_hex)
            == known_follows(cache, entry.account_id_hex),
{
}

/// A profile that a search stored is served before it expires and never after;
/// its follows are served either way.
pub proof fn law_expired_profile_is_not_served(
    cache: CacheContent,
    record: GraphRecordContent,
    now: i64,
    expires_at: u64,
)
    requires
        record.metadata_expires_at == Some(expires_at),
        expires_at <= i64::MAX,
        record.follows is Some,
    ensures
        ({
            let served = graph_entry(
                with_graph_record(cache, record),
                record.account_id_hex,
                now,
            )->0;
            &&& served.profile == (if now < expires_at {
                record.profile
            } else {
                None
            })
            &&& served.follows == record.follows->0
        }),
{
}

/// An account whose contact list was never seen is told apart from one that
/// follows nobody.
pub proof fn law_unknown_follows_differ_from_none(
    cache: CacheContent,
    account: Seq<char>,
    npub: Seq<char>,
    other: Seq<char>,
)
    requires
        !cache.graph.dom().contains(other),
        other != account,
    ensures
        known_follows(with_graph_follows(cache, account, npub, Seq::empty()), account) == Some(
            Seq::<Seq<char>>::empty(),
        ),
        known_follows(with_graph_follows(cache, account, npub, Seq::empty()), other) is None,
{
}

/// What a cache held of an account is held again by a cache that knew nothing of it
/// and took it back, and what that cache holds of every other account stays.
pub proof fn law_account_is_restored(
    stored: CacheContent,
    empty: CacheContent,
    account: Seq<char>,
    other: Seq<char>,
)
    requires
        stored.users.dom().contains(account) ==> stored.users[account].account_id_hex == account,
        !empty.users.dom().contains(account),
        !empty.graph.dom().contains(account),
        forall|r: Seq<char>| !empty.reasons.dom().contains((account, r)),
        other != account,
    ensures
        account_content(with_account(empty, account_content(stored, account)), account)
            == account_content(stored, account),
        account_content(with_account(empty, account_content(stored, account)), other)
            == account_content(empty, other),
{
    let taken = account_content(stored, account);
    let after = with_account(empty, taken);
    assert(account_content(after, account).reasons =~= taken.reasons);
    assert(account_content(after, account) =~= taken);
    assert(account_content(after, other).reasons =~= account_content(empty, other).reasons);
    assert(account_content(after, other) =~= account_content(empty, other));
}

/// A cache knows finitely many users.
pub proof fn lemma_users_are_finite(cache: DirectoryCache)
    ensures
        cache@.users.dom().finite(),
{
    lemma_bindings_are_finite(cache.users);
}

/// A map binds finitely many keys.
pub proof fn lemma_bindings_are_finite<V: DeepView>(map: KeyMap<String, V>)
    ensures
        bindings(map).dom().finite(),
{
    let keys = map.sequence();
    vstd::seq_lib::seq_to_set_is_finite(keys);
    assert(bindings(map).dom().subset_of(keys.to_set()));
    vstd::set_lib::lemma_len_subset(bindings(map).dom(), keys.to_set());
}

/// Clearing a slot touches no entry but the one, and of that only the key
/// package.
pub proof fn law_clearing_a_slot_keeps_the_rest(
    cache: CacheContent,
    account: Seq<char>,
    slot: Seq<char>,
    sibling: Seq<char>,
)
    requires
        has_package_in_slot(cache, account, Some(slot)),
        sibling != slot,
    ensures
        !has_package_in_slot(cache, account, Some(sibling)),
        scrubbed(cache.users[account]).profile == cache.users[account].profile,
        scrubbed(cache.users[account]).follows == cache.users[account].follows,
        scrubbed(cache.users[account]).relay_lists == cache.users[account].relay_lists,
{
}

} // verus!
