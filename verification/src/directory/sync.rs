//! Keeping the directory in step with relays: whom to subscribe to, in which
//! batches, and when to plan anew.

use crate::collections::{drop_listed, dropped_keys, lemma_dropped};
use crate::directory::records::{
    KIND_MARMOT_INBOX_RELAY_LIST, KIND_MARMOT_KEY_PACKAGE, KIND_NIP65_RELAY_LIST,
    KIND_NOSTR_CONTACT_LIST, KIND_NOSTR_METADATA,
};
use crate::order::{ascending_set, lemma_ascending_set_exists, sort_dedup};
use crate::text::{decimal, decimal_text, hex_encode, hex_text, join, sha256, sha256_digest};
use vstd::prelude::*;
use vstd::string::*;

verus! {

/// How many accounts one subscription watches.
pub const DIRECTORY_SYNC_USER_BATCH_SIZE: usize = 200;

/// What is watched of every known user. Contact lists are left out: watching those
/// of everyone who is followed would crawl the whole social graph.
pub open spec fn user_kinds() -> Seq<u64> {
    seq![
        KIND_NOSTR_METADATA,
        KIND_NIP65_RELAY_LIST,
        KIND_MARMOT_INBOX_RELAY_LIST,
        KIND_MARMOT_KEY_PACKAGE,
    ]
}

/// What is watched of this device's own accounts, contact lists included.
pub open spec fn local_kinds() -> Seq<u64> {
    seq![
        KIND_NOSTR_METADATA,
        KIND_NOSTR_CONTACT_LIST,
        KIND_NIP65_RELAY_LIST,
        KIND_MARMOT_INBOX_RELAY_LIST,
        KIND_MARMOT_KEY_PACKAGE,
    ]
}

fn sync_kinds(local: bool) -> (kinds: Vec<u64>)
    ensures
        kinds@ == (if local {
            local_kinds()
        } else {
            user_kinds()
        }),
{
    let mut kinds: Vec<u64> = Vec::new();
    kinds.push(KIND_NOSTR_METADATA);
    if local {
        kinds.push(KIND_NOSTR_CONTACT_LIST);
    }
    kinds.push(KIND_NIP65_RELAY_LIST);
    kinds.push(KIND_MARMOT_INBOX_RELAY_LIST);
    kinds.push(KIND_MARMOT_KEY_PACKAGE);
    assert(local ==> kinds@ =~= local_kinds());
    assert(!local ==> kinds@ =~= user_kinds());
    kinds
}

/// A subscription to a batch of accounts.
#[derive(Debug, PartialEq, Eq)]
pub struct DirectorySyncBatch {
    pub subscription_id: String,
    pub authors: Vec<String>,
    pub kinds: Vec<u64>,
    pub since: Option<u64>,
}

/// The content of a [`DirectorySyncBatch`].
#[verifier::ext_equal]
pub struct BatchContent {
    pub subscription_id: Seq<char>,
    pub authors: Seq<Seq<char>>,
    pub kinds: Seq<u64>,
    pub since: Option<u64>,
}

impl DeepView for DirectorySyncBatch {
    type V = BatchContent;

    open spec fn deep_view(&self) -> BatchContent {
        BatchContent {
            subscription_id: self.subscription_id@,
            authors: self.authors.deep_view(),
            kinds: self.kinds@,
            since: self.since,
        }
    }
}

/// Whom to subscribe to, and at which relays.
#[derive(Debug, PartialEq, Eq)]
pub struct DirectorySyncPlan {
    pub endpoints: Vec<String>,
    pub watched_user_count: usize,
    pub batches: Vec<DirectorySyncBatch>,
}

/// The content of a [`DirectorySyncPlan`].
#[verifier::ext_equal]
pub struct PlanContent {
    pub endpoints: Seq<Seq<char>>,
    pub watched_user_count: nat,
    pub batches: Seq<BatchContent>,
}

impl DeepView for DirectorySyncPlan {
    type V = PlanContent;

    open spec fn deep_view(&self) -> PlanContent {
        PlanContent {
            endpoints: self.endpoints.deep_view(),
            watched_user_count: self.watched_user_count as nat,
            batches: self.batches.deep_view(),
        }
    }
}

/// The eight bytes of a number, the highest first.
pub open spec fn big_endian(value: u64) -> Seq<u8> {
    seq![
        (value / 0x100_0000_0000_0000) as u8,
        (value / 0x1_0000_0000_0000 % 256) as u8,
        (value / 0x100_0000_0000 % 256) as u8,
        (value / 0x1_0000_0000 % 256) as u8,
        (value / 0x100_0000 % 256) as u8,
        (value / 0x1_0000 % 256) as u8,
        (value / 0x100 % 256) as u8,
        (value % 256) as u8,
    ]
}

/// A text as it enters a digest: its length in bytes, and its bytes.
pub open spec fn framed(text: Seq<char>) -> Seq<u8> {
    let bytes = vstd::utf8::encode_utf8(text);
    big_endian(bytes.len() as u64) + bytes
}

/// What the name of a subscription is derived from.
pub open spec fn digest_input(group: Seq<char>, authors: Seq<Seq<char>>) -> Seq<u8>
    decreases authors.len(),
{
    if authors.len() == 0 {
        framed(group)
    } else {
        digest_input(group, authors.drop_last()) + framed(authors.last())
    }
}

/// The name of a subscription. It holds a digest in place of the accounts.
pub open spec fn subscription_name(group: Seq<char>, index: nat, authors: Seq<Seq<char>>) -> Seq<
    char,
> {
    "directory_"@ + group + "_"@ + decimal_text(index) + "_"@ + hex_text(
        sha256(digest_input(group, authors)).take(8),
    )
}

fn push_all(bytes: &mut Vec<u8>, more: &[u8])
    ensures
        final(bytes)@ == old(bytes)@ + more@,
{
    let ghost start = bytes@;
    let mut i: usize = 0;
    assert(start + more@.take(0) =~= start);
    while i < more.len()
        invariant
            i <= more@.len(),
            bytes@ == start + more@.take(i as int),
        decreases more.len() - i,
    {
        bytes.push(more[i]);
        assert(more@.take(i + 1) =~= more@.take(i as int).push(more@[i as int]));
        assert(bytes@ =~= start + more@.take(i + 1));
        i += 1;
    }
    assert(more@.take(more@.len() as int) =~= more@);
}

fn push_framed(bytes: &mut Vec<u8>, text: &str)
    ensures
        final(bytes)@ == old(bytes)@ + framed(text@),
{
    let ghost start = bytes@;
    let content = text.as_bytes();
    let value: u64 = content.len() as u64;
    bytes.push((value / 0x100_0000_0000_0000) as u8);
    bytes.push((value / 0x1_0000_0000_0000 % 256) as u8);
    bytes.push((value / 0x100_0000_0000 % 256) as u8);
    bytes.push((value / 0x1_0000_0000 % 256) as u8);
    bytes.push((value / 0x100_0000 % 256) as u8);
    bytes.push((value / 0x1_0000 % 256) as u8);
    bytes.push((value / 0x100 % 256) as u8);
    bytes.push((value % 256) as u8);
    assert(bytes@ =~= start + big_endian(value));
    push_all(bytes, content);
    assert(bytes@ =~= start + framed(text@));
}

/// Names a subscription without revealing whom it watches.
pub fn directory_subscription_id(group: &str, index: usize, authors: &Vec<String>) -> (name: String)
    ensures
        name@ == subscription_name(group@, index as nat, authors.deep_view()),
{
    let ghost all = authors.deep_view();
    let mut input: Vec<u8> = Vec::new();
    push_framed(&mut input, group);
    assert(input@ =~= framed(group@));
    let mut i: usize = 0;
    assert(all.take(0) =~= Seq::<Seq<char>>::empty());
    while i < authors.len()
        invariant
            i <= authors@.len(),
            all == authors.deep_view(),
            input@ == digest_input(group@, all.take(i as int)),
        decreases authors.len() - i,
    {
        assert(all.take(i + 1).drop_last() =~= all.take(i as int));
        assert(all.take(i + 1).last() == authors@[i as int]@);
        push_framed(&mut input, authors[i].as_str());
        i += 1;
    }
    assert(all.take(all.len() as int) =~= all);
    let digest = sha256_digest(input.as_slice());
    let mut short: Vec<u8> = Vec::new();
    let mut k: usize = 0;
    while k < 8
        invariant
            k <= 8,
            digest@.len() == 32,
            short@ == digest@.take(k as int),
        decreases 8 - k,
    {
        short.push(digest[k]);
        assert(digest@.take(k + 1) =~= digest@.take(k as int).push(digest@[k as int]));
        k += 1;
    }
    let mut name = join("directory_", group);
    name.append("_");
    name.append(decimal(index as u64).as_str());
    name.append("_");
    name.append(hex_encode(short.as_slice()).as_str());
    assert(name@ =~= subscription_name(group@, index as nat, authors.deep_view()));
    name
}

/// How many of the remaining accounts enter the next batch.
pub open spec fn batch_len(remaining: nat, size: nat) -> nat {
    if remaining < size {
        remaining
    } else {
        size
    }
}

/// The batches of a group of accounts, numbered from `index`.
pub open spec fn batches_of(
    group: Seq<char>,
    accounts: Seq<Seq<char>>,
    kinds: Seq<u64>,
    since: Option<u64>,
    size: nat,
    index: nat,
) -> Seq<BatchContent>
    decreases accounts.len(),
{
    if accounts.len() == 0 || size == 0 {
        Seq::empty()
    } else {
        let n = batch_len(accounts.len(), size) as int;
        let authors = accounts.take(n);
        seq![
            BatchContent {
                subscription_id: subscription_name(group, index, authors),
                authors,
                kinds,
                since,
            },
        ] + batches_of(group, accounts.skip(n), kinds, since, size, index + 1)
    }
}

/// The plan over this device's accounts and every known user.
pub open spec fn plan_of(
    endpoints: Seq<Seq<char>>,
    local: Seq<Seq<char>>,
    known: Seq<Seq<char>>,
    since: Option<u64>,
    size: nat,
) -> PlanContent {
    let local = ascending_set(local);
    let remote = dropped_keys(ascending_set(known), local);
    let size = if size == 0 {
        1
    } else {
        size
    };
    PlanContent {
        endpoints: ascending_set(endpoints),
        watched_user_count: local.len() + remote.len(),
        batches: batches_of("local"@, local, local_kinds(), since, size, 0) + batches_of(
            "users"@,
            remote,
            user_kinds(),
            since,
            size,
            0,
        ),
    }
}

fn extend_batches(
    batches: &mut Vec<DirectorySyncBatch>,
    group: &str,
    account_ids: &Vec<String>,
    local: bool,
    since: Option<u64>,
    batch_size: usize,
)
    requires
        batch_size > 0,
    ensures
        final(batches).deep_view() == old(batches).deep_view() + batches_of(
            group@,
            account_ids.deep_view(),
            if local {
                local_kinds()
            } else {
                user_kinds()
            },
            since,
            batch_size as nat,
            0,
        ),
{
    let ghost start = batches.deep_view();
    let ghost all = account_ids.deep_view();
    let ghost kinds = if local {
        local_kinds()
    } else {
        user_kinds()
    };
    let ghost expected = batches_of(group@, all, kinds, since, batch_size as nat, 0);
    let mut done: usize = 0;
    let mut index: usize = 0;
    assert(all.skip(0) =~= all);
    assert(batches.deep_view() + expected =~= start + expected);
    while done < account_ids.len()
        invariant
            batch_size > 0,
            done <= account_ids@.len(),
            index <= done,
            all == account_ids.deep_view(),
            kinds == (if local {
                local_kinds()
            } else {
                user_kinds()
            }),
            batches.deep_view() + batches_of(
                group@,
                all.skip(done as int),
                kinds,
                since,
                batch_size as nat,
                index as nat,
            ) == start + expected,
        decreases account_ids.len() - done,
    {
        let total: usize = account_ids.len();
        let left = total - done;
        let n = if left < batch_size {
            left
        } else {
            batch_size
        };
        let ghost rest = all.skip(done as int);
        let mut authors: Vec<String> = Vec::new();
        let mut k: usize = 0;
        while k < n
            invariant
                k <= n,
                done + n <= total,
                total == account_ids@.len(),
                all == account_ids.deep_view(),
                rest == all.skip(done as int),
                authors.deep_view() == rest.take(k as int),
            decreases n - k,
        {
            let ghost before = authors.deep_view();
            authors.push(account_ids[done + k].clone());
            assert(rest[k as int] == account_ids@[done + k]@);
            assert(authors.deep_view() =~= before.push(rest[k as int]));
            assert(rest.take(k + 1) =~= rest.take(k as int).push(rest[k as int]));
            k += 1;
        }
        let subscription_id = directory_subscription_id(group, index, &authors);
        let ghost batch = BatchContent {
            subscription_id: subscription_id@,
            authors: rest.take(n as int),
            kinds,
            since,
        };
        let ghost held = batches.deep_view();
        let made = DirectorySyncBatch {
            subscription_id,
            authors,
            kinds: sync_kinds(local),
            since,
        };
        assert(made.deep_view() == batch);
        batches.push(made);
        assert(batches.deep_view() =~= held.push(batch));
        assert(rest.skip(n as int) =~= all.skip(done + n));
        proof {
            let tail = batches_of(
                group@,
                all.skip(done + n),
                kinds,
                since,
                batch_size as nat,
                (index + 1) as nat,
            );
            assert(held + (seq![batch] + tail) =~= held.push(batch) + tail);
        }
        done += n;
        index += 1;
    }
    assert(batches.deep_view() =~= start + expected);
}

impl DirectorySyncPlan {
    /// Plans over this device's accounts and every known user. Contact lists are
    /// watched of the former only.
    pub fn from_known_users(
        endpoints: Vec<String>,
        local_account_ids: Vec<String>,
        known_user_ids: Vec<String>,
        since: Option<u64>,
    ) -> (plan: Self)
        requires
            local_account_ids@.len() + known_user_ids@.len() <= usize::MAX,
        ensures
            plan.deep_view() == plan_of(
                endpoints.deep_view(),
                local_account_ids.deep_view(),
                known_user_ids.deep_view(),
                since,
                DIRECTORY_SYNC_USER_BATCH_SIZE as nat,
            ),
    {
        Self::from_known_users_with_batch_size(
            endpoints,
            local_account_ids,
            known_user_ids,
            since,
            DIRECTORY_SYNC_USER_BATCH_SIZE,
        )
    }

    /// Plans with batches of a given size.
    pub fn from_known_users_with_batch_size(
        endpoints: Vec<String>,
        local_account_ids: Vec<String>,
        known_user_ids: Vec<String>,
        since: Option<u64>,
        batch_size: usize,
    ) -> (plan: Self)
        requires
            local_account_ids@.len() + known_user_ids@.len() <= usize::MAX,
        ensures
            plan.deep_view() == plan_of(
                endpoints.deep_view(),
                local_account_ids.deep_view(),
                known_user_ids.deep_view(),
                since,
                batch_size as nat,
            ),
    {
        let ghost given_local = local_account_ids.deep_view();
        let ghost given_known = known_user_ids.deep_view();
        let endpoints = sort_dedup(endpoints);
        let local = sort_dedup(local_account_ids);
        let known = sort_dedup(known_user_ids);
        proof {
            lemma_distinct_part(local.deep_view(), given_local);
            lemma_distinct_part(known.deep_view(), given_known);
            lemma_dropped(known.deep_view(), local.deep_view());
        }
        let ghost k = known.deep_view();
        let remote = drop_listed(known, &local);
        let size = if batch_size == 0 {
            1
        } else {
            batch_size
        };
        let mut batches: Vec<DirectorySyncBatch> = Vec::new();
        assert(batches.deep_view() =~= Seq::<BatchContent>::empty());
        extend_batches(&mut batches, "local", &local, true, since, size);
        extend_batches(&mut batches, "users", &remote, false, since, size);
        proof {
            lemma_distinct_part(remote.deep_view(), k);
        }
        let watched_user_count = local.len() + remote.len();
        let plan = DirectorySyncPlan { endpoints, watched_user_count, batches };
        assert(plan.deep_view().batches =~= plan_of(
            plan.endpoints.deep_view(),
            given_local,
            given_known,
            since,
            batch_size as nat,
        ).batches);
        plan
    }
}

proof fn lemma_distinct_part<T>(part: Seq<T>, whole: Seq<T>)
    requires
        part.no_duplicates(),
        forall|x: T| #![auto] part.contains(x) ==> whole.contains(x),
    ensures
        part.len() <= whole.len(),
{
    part.unique_seq_to_set();
    vstd::seq_lib::seq_to_set_is_finite(whole);
    vstd::seq_lib::seq_to_set_is_finite(part);
    assert(part.to_set().subset_of(whole.to_set())) by {
        assert forall|x: T| part.to_set().contains(x) implies whole.to_set().contains(x) by {
            assert(part.contains(x));
        }
    }
    vstd::set_lib::lemma_len_subset(part.to_set(), whole.to_set());
    whole.lemma_cardinality_of_set();
}

/// The accounts that batches watch, in order.
pub open spec fn watched(batches: Seq<BatchContent>) -> Seq<Seq<char>>
    decreases batches.len(),
{
    if batches.len() == 0 {
        Seq::empty()
    } else {
        batches[0].authors + watched(batches.drop_first())
    }
}

/// The batches of a group watch exactly its accounts, each once and in order, and
/// none is larger than the size asked for.
pub proof fn law_batches_watch_every_account_once(
    group: Seq<char>,
    accounts: Seq<Seq<char>>,
    kinds: Seq<u64>,
    since: Option<u64>,
    size: nat,
    index: nat,
)
    requires
        size > 0,
    ensures
        watched(batches_of(group, accounts, kinds, since, size, index)) == accounts,
        forall|i: int|
            0 <= i < batches_of(group, accounts, kinds, since, size, index).len() ==> (
            #[trigger] batches_of(group, accounts, kinds, since, size, index)[i]).authors.len()
                <= size,
        forall|i: int|
            0 <= i < batches_of(group, accounts, kinds, since, size, index).len() ==> (
            #[trigger] batches_of(group, accounts, kinds, since, size, index)[i]).kinds == kinds,
    decreases accounts.len(),
{
    let batches = batches_of(group, accounts, kinds, since, size, index);
    if accounts.len() > 0 {
        let n = batch_len(accounts.len(), size) as int;
        let tail = batches_of(group, accounts.skip(n), kinds, since, size, index + 1);
        law_batches_watch_every_account_once(
            group,
            accounts.skip(n),
            kinds,
            since,
            size,
            index + 1,
        );
        assert(batches.drop_first() =~= tail);
        assert(accounts.take(n) + accounts.skip(n) =~= accounts);
        assert forall|i: int| 0 <= i < batches.len() implies (
        #[trigger] batches[i]).authors.len() <= size && batches[i].kinds == kinds by {
            if i > 0 {
                assert(batches[i] == tail[i - 1]);
            }
        }
    } else {
        assert(watched(batches) =~= accounts);
    }
}

/// Contact lists are never watched of anyone but this device's own accounts.
pub proof fn law_only_local_contact_lists_are_watched(
    endpoints: Seq<Seq<char>>,
    local: Seq<Seq<char>>,
    known: Seq<Seq<char>>,
    since: Option<u64>,
    size: nat,
    i: int,
    author: Seq<char>,
)
    requires
        0 <= i < plan_of(endpoints, local, known, since, size).batches.len(),
        plan_of(endpoints, local, known, since, size).batches[i].kinds.contains(
            KIND_NOSTR_CONTACT_LIST,
        ),
        plan_of(endpoints, local, known, since, size).batches[i].authors.contains(author),
    ensures
        local.contains(author),
{
    let size = if size == 0 {
        1
    } else {
        size
    };
    let own = ascending_set(local);
    let remote = dropped_keys(ascending_set(known), own);
    let first = batches_of("local"@, own, local_kinds(), since, size, 0);
    let second = batches_of("users"@, remote, user_kinds(), since, size, 0);
    law_batches_watch_every_account_once("local"@, own, local_kinds(), since, size, 0);
    law_batches_watch_every_account_once("users"@, remote, user_kinds(), since, size, 0);
    lemma_ascending_set_exists(local);
    if i < first.len() {
        lemma_batch_is_watched(first, i, author);
        assert(own.contains(author));
    } else {
        assert(second[i - first.len()].kinds == user_kinds());
        assert(!user_kinds().contains(KIND_NOSTR_CONTACT_LIST));
    }
}

proof fn lemma_batch_is_watched(batches: Seq<BatchContent>, i: int, author: Seq<char>)
    requires
        0 <= i < batches.len(),
        batches[i].authors.contains(author),
    ensures
        watched(batches).contains(author),
    decreases batches.len(),
{
    let head = batches[0].authors;
    let rest = watched(batches.drop_first());
    if i == 0 {
        let k = choose|k: int| 0 <= k < head.len() && head[k] == author;
        assert((head + rest)[k] == author);
    } else {
        assert(batches.drop_first()[i - 1] == batches[i]);
        lemma_batch_is_watched(batches.drop_first(), i - 1, author);
        let k = choose|k: int| 0 <= k < rest.len() && rest[k] == author;
        assert((head + rest)[head.len() + k] == author);
    }
}

/// Rebuilds after relays lost events: at most one runs and one waits.
#[derive(Clone, Copy, Debug, PartialEq, Eq, Structural)]
pub struct DirectoryRecoveryRebuildQueue {
    pub active: bool,
    pub pending: bool,
}

impl DirectoryRecoveryRebuildQueue {
    pub open spec fn wf(&self) -> bool {
        self.pending ==> self.active
    }

    pub fn new() -> (queue: Self)
        ensures
            !queue.active,
            !queue.pending,
            queue.wf(),
    {
        DirectoryRecoveryRebuildQueue { active: false, pending: false }
    }

    /// Asks for a rebuild; returns whether it starts now. While one runs, further
    /// requests become one more.
    pub fn request(&mut self) -> (starts: bool)
        requires
            old(self).wf(),
        ensures
            final(self).wf(),
            starts == !old(self).active,
            *final(self) == (DirectoryRecoveryRebuildQueue {
                active: true,
                pending: old(self).active,
            }),
    {
        if self.active {
            self.pending = true;
            false
        } else {
            self.active = true;
            true
        }
    }

    /// Ends the running rebuild; returns whether the one that waited starts.
    pub fn complete(&mut self) -> (starts: bool)
        requires
            old(self).wf(),
            old(self).active,
        ensures
            final(self).wf(),
            starts == old(self).pending,
            *final(self) == (DirectoryRecoveryRebuildQueue {
                active: old(self).pending,
                pending: false,
            }),
    {
        if self.pending {
            self.pending = false;
            true
        } else {
            self.active = false;
            false
        }
    }
}

/// What became of a request that was sent to the worker.
#[derive(Clone, Copy, Debug, PartialEq, Eq, Structural)]
pub enum SendOutcome {
    Sent,
    Full,
    Closed,
}

/// Requests for a new plan: however many are made, one is on its way.
#[derive(Clone, Copy, Debug, PartialEq, Eq, Structural)]
pub struct RebuildRequest {
    pub queued: bool,
}

impl RebuildRequest {
    /// Makes a request; returns whether it has to be sent.
    pub fn begin(&mut self) -> (send: bool)
        ensures
            send == !old(self).queued,
            final(self).queued,
    {
        let send = !self.queued;
        self.queued = true;
        send
    }

    /// Notes what became of the request that was sent. Where the worker is gone,
    /// none is on its way.
    pub fn settle(&mut self, outcome: SendOutcome)
        ensures
            final(self).queued == (old(self).queued && outcome != SendOutcome::Closed),
    {
        if let SendOutcome::Closed = outcome {
            self.queued = false;
        }
    }
}

/// What happens to the worker.
#[derive(Clone, Copy, Debug, PartialEq, Eq, Structural)]
pub enum WorkerEvent {
    Rebuild,
    Shutdown,
    CommandsClosed,
    RecoveryFinished,
    Record,
    RecoveryRequired,
    Lagged,
    EventsClosed,
}

/// What the worker does next.
#[derive(Clone, Copy, Debug, PartialEq, Eq, Structural)]
pub enum WorkerAction {
    Rebuild,
    StartRecovery,
    Ingest,
    Wait,
    Stop,
}

/// The worker that keeps the directory subscriptions.
#[derive(Clone, Copy, Debug, PartialEq, Eq, Structural)]
pub struct DirectorySyncWorker {
    pub recovery: DirectoryRecoveryRebuildQueue,
    pub request: RebuildRequest,
}

impl DirectorySyncWorker {
    pub open spec fn wf(&self) -> bool {
        self.recovery.wf()
    }

    pub fn new() -> (worker: Self)
        ensures
            worker.wf(),
            !worker.recovery.active,
            !worker.request.queued,
    {
        DirectorySyncWorker {
            recovery: DirectoryRecoveryRebuildQueue::new(),
            request: RebuildRequest { queued: false },
        }
    }

    /// Takes in an event. A recovery that finishes, well or not, lets the one that
    /// waited start.
    pub fn step(&mut self, event: WorkerEvent) -> (action: WorkerAction)
        requires
            old(self).wf(),
            event == WorkerEvent::RecoveryFinished ==> old(self).recovery.active,
        ensures
            final(self).wf(),
            match event {
                WorkerEvent::Rebuild => action == WorkerAction::Rebuild
                    && !final(self).request.queued && final(self).recovery == old(self).recovery,
                WorkerEvent::Shutdown | WorkerEvent::CommandsClosed | WorkerEvent::EventsClosed =>
                action == WorkerAction::Stop && *final(self) == *old(self),
                WorkerEvent::RecoveryFinished => {
                    &&& action == (if old(self).recovery.pending {
                        WorkerAction::StartRecovery
                    } else {
                        WorkerAction::Wait
                    })
                    &&& final(self).recovery.active == old(self).recovery.pending
                    &&& !final(self).recovery.pending
                    &&& final(self).request == old(self).request
                },
                WorkerEvent::Record => action == WorkerAction::Ingest && *final(self)
                    == *old(self),
                WorkerEvent::RecoveryRequired | WorkerEvent::Lagged => {
                    &&& action == (if old(self).recovery.active {
                        WorkerAction::Wait
                    } else {
                        WorkerAction::StartRecovery
                    })
                    &&& final(self).recovery.active
                    &&& final(self).recovery.pending == old(self).recovery.active
                    &&& final(self).request == old(self).request
                },
            },
    {
        match event {
            WorkerEvent::Rebuild => {
                self.request.queued = false;
                WorkerAction::Rebuild
            },
            WorkerEvent::Shutdown | WorkerEvent::CommandsClosed | WorkerEvent::EventsClosed => {
                WorkerAction::Stop
            },
            WorkerEvent::RecoveryFinished => if self.recovery.complete() {
                WorkerAction::StartRecovery
            } else {
                WorkerAction::Wait
            },
            WorkerEvent::Record => WorkerAction::Ingest,
            WorkerEvent::RecoveryRequired | WorkerEvent::Lagged => if self.recovery.request() {
                WorkerAction::StartRecovery
            } else {
                WorkerAction::Wait
            },
        }
    }
}

} // verus!
