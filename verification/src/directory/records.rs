//! Relay events of the directory, and the relay lists that accounts publish.

use crate::collections::{copy_list, Key};
use crate::error::MissingRelayListKind;
use crate::order::{
    extend_unique, lemma_sorted_content, lemma_text_lt_total, lemma_text_lt_transitive,
    push_unique_texts, sort_stable, sorted_by, text_less, text_lt, Ordered,
};
use vstd::prelude::*;

verus! {

/// Profile metadata.
pub const KIND_NOSTR_METADATA: u64 = 0;

/// A contact list.
pub const KIND_NOSTR_CONTACT_LIST: u64 = 3;

/// The relays that an account reads from and writes to.
pub const KIND_NIP65_RELAY_LIST: u64 = 10_002;

/// The relays at which an account is reached.
pub const KIND_MARMOT_INBOX_RELAY_LIST: u64 = 10_050;

/// A key package.
pub const KIND_MARMOT_KEY_PACKAGE: u64 = 30_443;

/// How many relay-list events one query asks for.
pub const RELAY_LIST_QUERY_LIMIT: usize = 12;

/// An event of the transport.
#[derive(Debug)]
pub struct RelayEvent {
    pub id: String,
    pub pubkey: String,
    pub kind: u64,
    pub created_at: u64,
    pub content: String,
    pub tags: Vec<Vec<String>>,
}

/// The content of a [`RelayEvent`].
#[verifier::ext_equal]
pub struct EventContent {
    pub id: Seq<char>,
    pub pubkey: Seq<char>,
    pub kind: u64,
    pub created_at: u64,
    pub content: Seq<char>,
    pub tags: Seq<Seq<Seq<char>>>,
}

impl DeepView for RelayEvent {
    type V = EventContent;

    open spec fn deep_view(&self) -> EventContent {
        EventContent {
            id: self.id@,
            pubkey: self.pubkey@,
            kind: self.kind,
            created_at: self.created_at,
            content: self.content@,
            tags: self.tags.deep_view(),
        }
    }
}

fn copy_tags(tags: &Vec<Vec<String>>) -> (copy: Vec<Vec<String>>)
    ensures
        copy.deep_view() == tags.deep_view(),
{
    let mut copy: Vec<Vec<String>> = Vec::new();
    let mut i: usize = 0;
    while i < tags.len()
        invariant
            i <= tags@.len(),
            copy@.len() == i,
            forall|j: int|
                0 <= j < i ==> (#[trigger] copy@[j]).deep_view() == tags@[j].deep_view(),
        decreases tags.len() - i,
    {
        copy.push(copy_list(&tags[i]));
        i += 1;
    }
    assert(copy.deep_view() =~= tags.deep_view());
    copy
}

impl RelayEvent {
    pub fn duplicate(&self) -> (copy: Self)
        ensures
            copy.deep_view() == self.deep_view(),
    {
        RelayEvent {
            id: self.id.clone(),
            pubkey: self.pubkey.clone(),
            kind: self.kind,
            created_at: self.created_at,
            content: self.content.clone(),
            tags: copy_tags(&self.tags),
        }
    }
}

/// The relays of a published relay list.
#[derive(Debug, PartialEq, Eq)]
pub struct RelayListState {
    pub relays: Vec<String>,
    pub read_relays: Vec<String>,
    pub write_relays: Vec<String>,
}

/// The content of a [`RelayListState`].
#[verifier::ext_equal]
pub struct RelayListContent {
    pub relays: Seq<Seq<char>>,
    pub read_relays: Seq<Seq<char>>,
    pub write_relays: Seq<Seq<char>>,
}

impl DeepView for RelayListState {
    type V = RelayListContent;

    open spec fn deep_view(&self) -> RelayListContent {
        RelayListContent {
            relays: self.relays.deep_view(),
            read_relays: self.read_relays.deep_view(),
            write_relays: self.write_relays.deep_view(),
        }
    }
}

impl Key for RelayListState {
    fn same(&self, other: &Self) -> (equal: bool) {
        same_texts(&self.relays, &other.relays) && same_texts(&self.read_relays, &other.read_relays)
            && same_texts(&self.write_relays, &other.write_relays)
    }

    fn duplicate(&self) -> (copy: Self) {
        RelayListState {
            relays: copy_list(&self.relays),
            read_relays: copy_list(&self.read_relays),
            write_relays: copy_list(&self.write_relays),
        }
    }
}

/// Compares two lists of texts.
pub fn same_texts(left: &Vec<String>, right: &Vec<String>) -> (equal: bool)
    ensures
        equal == (left.deep_view() == right.deep_view()),
{
    if left.len() != right.len() {
        assert(left.deep_view().len() != right.deep_view().len());
        return false;
    }
    let mut i: usize = 0;
    while i < left.len()
        invariant
            i <= left@.len(),
            left@.len() == right@.len(),
            forall|j: int| 0 <= j < i ==> left.deep_view()[j] == right.deep_view()[j],
        decreases left.len() - i,
    {
        assert(left.deep_view()[i as int] == left@[i as int]@);
        assert(right.deep_view()[i as int] == right@[i as int]@);
        if !left[i].same(&right[i]) {
            return false;
        }
        i += 1;
    }
    assert(left.deep_view() =~= right.deep_view());
    true
}

pub open spec fn no_relays() -> RelayListContent {
    RelayListContent {
        relays: Seq::empty(),
        read_relays: Seq::empty(),
        write_relays: Seq::empty(),
    }
}

impl RelayListState {
    /// A list without relays.
    pub fn empty() -> (state: Self)
        ensures
            state.deep_view() == no_relays(),
    {
        let state = RelayListState {
            relays: Vec::new(),
            read_relays: Vec::new(),
            write_relays: Vec::new(),
        };
        assert(state.deep_view() =~= no_relays());
        state
    }
}

/// The relay lists of an account, where they were found, and which are lacking.
#[derive(Debug, PartialEq, Eq)]
pub struct AccountRelayListStatus {
    pub nip65: RelayListState,
    pub inbox: RelayListState,
    pub default_relays: Vec<String>,
    pub bootstrap_relays: Vec<String>,
    pub missing: Vec<MissingRelayListKind>,
}

/// The content of an [`AccountRelayListStatus`].
#[verifier::ext_equal]
pub struct RelayListStatusContent {
    pub nip65: RelayListContent,
    pub inbox: RelayListContent,
    pub default_relays: Seq<Seq<char>>,
    pub bootstrap_relays: Seq<Seq<char>>,
    pub missing: Seq<MissingRelayListKind>,
}

impl DeepView for AccountRelayListStatus {
    type V = RelayListStatusContent;

    open spec fn deep_view(&self) -> RelayListStatusContent {
        RelayListStatusContent {
            nip65: self.nip65.deep_view(),
            inbox: self.inbox.deep_view(),
            default_relays: self.default_relays.deep_view(),
            bootstrap_relays: self.bootstrap_relays.deep_view(),
            missing: self.missing@,
        }
    }
}

/// Which lists have no relay.
pub open spec fn missing_lists(nip65: RelayListContent, inbox: RelayListContent) -> Seq<
    MissingRelayListKind,
> {
    (if nip65.relays.len() == 0 {
        seq![MissingRelayListKind::Nip65]
    } else {
        Seq::empty()
    }) + (if inbox.relays.len() == 0 {
        seq![MissingRelayListKind::Inbox]
    } else {
        Seq::empty()
    })
}

/// A status whose lacking lists are up to date.
pub open spec fn refreshed(status: RelayListStatusContent) -> RelayListStatusContent {
    RelayListStatusContent { missing: missing_lists(status.nip65, status.inbox), ..status }
}

/// The status of an account that published nothing.
pub open spec fn no_relay_lists() -> RelayListStatusContent {
    refreshed(
        RelayListStatusContent {
            nip65: no_relays(),
            inbox: no_relays(),
            default_relays: Seq::empty(),
            bootstrap_relays: Seq::empty(),
            missing: Seq::empty(),
        },
    )
}

impl AccountRelayListStatus {
    /// The status of an account that published nothing.
    pub fn empty() -> (status: Self)
        ensures
            status.deep_view() == no_relay_lists(),
    {
        let mut status = AccountRelayListStatus {
            nip65: RelayListState::empty(),
            inbox: RelayListState::empty(),
            default_relays: Vec::new(),
            bootstrap_relays: Vec::new(),
            missing: Vec::new(),
        };
        assert(status.default_relays.deep_view() =~= Seq::<Seq<char>>::empty());
        assert(status.bootstrap_relays.deep_view() =~= Seq::<Seq<char>>::empty());
        status.refresh();
        status
    }

    /// Brings the lacking lists up to date.
    pub fn refresh(&mut self)
        ensures
            final(self).deep_view() == refreshed(old(self).deep_view()),
    {
        let mut missing: Vec<MissingRelayListKind> = Vec::new();
        if self.nip65.relays.len() == 0 {
            missing.push(MissingRelayListKind::Nip65);
        }
        if self.inbox.relays.len() == 0 {
            missing.push(MissingRelayListKind::Inbox);
        }
        assert(missing@ =~= missing_lists(self.nip65.deep_view(), self.inbox.deep_view()));
        self.missing = missing;
    }
}

/// Copies the lacking lists.
fn copy_missing(missing: &Vec<MissingRelayListKind>) -> (copy: Vec<MissingRelayListKind>)
    ensures
        copy@ == missing@,
{
    let mut copy: Vec<MissingRelayListKind> = Vec::new();
    let mut i: usize = 0;
    while i < missing.len()
        invariant
            i <= missing@.len(),
            copy@ == missing@.take(i as int),
        decreases missing.len() - i,
    {
        copy.push(missing[i]);
        assert(missing@.take(i + 1) =~= missing@.take(i as int).push(missing@[i as int]));
        i += 1;
    }
    assert(missing@.take(missing@.len() as int) =~= missing@);
    copy
}

fn same_missing(left: &Vec<MissingRelayListKind>, right: &Vec<MissingRelayListKind>) -> (equal:
    bool)
    ensures
        equal == (left@ == right@),
{
    if left.len() != right.len() {
        return false;
    }
    let mut i: usize = 0;
    while i < left.len()
        invariant
            i <= left@.len(),
            left@.len() == right@.len(),
            forall|j: int| 0 <= j < i ==> left@[j] == right@[j],
        decreases left.len() - i,
    {
        if left[i] != right[i] {
            return false;
        }
        i += 1;
    }
    assert(left@ =~= right@);
    true
}

impl Key for AccountRelayListStatus {
    fn same(&self, other: &Self) -> (equal: bool) {
        self.nip65.same(&other.nip65) && self.inbox.same(&other.inbox) && same_texts(
            &self.default_relays,
            &other.default_relays,
        ) && same_texts(&self.bootstrap_relays, &other.bootstrap_relays) && same_missing(
            &self.missing,
            &other.missing,
        )
    }

    fn duplicate(&self) -> (copy: Self) {
        AccountRelayListStatus {
            nip65: self.nip65.duplicate(),
            inbox: self.inbox.duplicate(),
            default_relays: copy_list(&self.default_relays),
            bootstrap_relays: copy_list(&self.bootstrap_relays),
            missing: copy_missing(&self.missing),
        }
    }
}

/// An event with the relays that carried it, and the relay list it holds where
/// it holds one.
#[derive(Debug)]
pub struct RelayEventRecord {
    pub event: RelayEvent,
    pub endpoints: Vec<String>,
    pub relay_list: Option<RelayListState>,
}

/// The content of a [`RelayEventRecord`].
#[verifier::ext_equal]
pub struct EventRecordContent {
    pub event: EventContent,
    pub endpoints: Seq<Seq<char>>,
    pub relay_list: Option<RelayListContent>,
}

impl DeepView for RelayEventRecord {
    type V = EventRecordContent;

    open spec fn deep_view(&self) -> EventRecordContent {
        EventRecordContent {
            event: self.event.deep_view(),
            endpoints: self.endpoints.deep_view(),
            relay_list: self.relay_list.deep_view(),
        }
    }
}

impl RelayEventRecord {
    pub fn duplicate(&self) -> (copy: Self)
        ensures
            copy.deep_view() == self.deep_view(),
    {
        let relay_list = match &self.relay_list {
            Some(state) => Some(state.duplicate()),
            None => None,
        };
        RelayEventRecord {
            event: self.event.duplicate(),
            endpoints: copy_list(&self.endpoints),
            relay_list,
        }
    }
}

/// Whether an event replaces another one at the same coordinate: the later one
/// does, and of two of one time the one with the smaller identifier.
pub open spec fn replaces(
    created_at: u64,
    id: Seq<char>,
    other_created_at: u64,
    other_id: Seq<char>,
) -> bool {
    created_at > other_created_at || (created_at == other_created_at && text_lt(id, other_id))
}

/// Whether an event replaces another one at the same coordinate.
pub fn nostr_replaceable_coordinate_is_newer(
    created_at: u64,
    id: &str,
    other_created_at: u64,
    other_id: &str,
) -> (newer: bool)
    ensures
        newer == replaces(created_at, id@, other_created_at, other_id@),
{
    created_at > other_created_at || (created_at == other_created_at && text_less(id, other_id))
}

/// Replacing is a strict order: nothing replaces itself, and of two coordinates
/// that differ exactly one replaces the other.
pub proof fn law_exactly_one_event_replaces_the_other(
    created_at: u64,
    id: Seq<char>,
    other_created_at: u64,
    other_id: Seq<char>,
)
    ensures
        !replaces(created_at, id, created_at, id),
        created_at != other_created_at || id != other_id ==> (replaces(
            created_at,
            id,
            other_created_at,
            other_id,
        ) <==> !replaces(other_created_at, other_id, created_at, id)),
{
    lemma_text_lt_total(id, id);
    lemma_text_lt_total(id, other_id);
}

/// Replacing is transitive.
pub proof fn law_replacing_is_transitive(
    created_at: u64,
    id: Seq<char>,
    other_created_at: u64,
    other_id: Seq<char>,
    third_created_at: u64,
    third_id: Seq<char>,
)
    requires
        replaces(created_at, id, other_created_at, other_id),
        replaces(other_created_at, other_id, third_created_at, third_id),
    ensures
        replaces(created_at, id, third_created_at, third_id),
{
    if created_at == other_created_at && other_created_at == third_created_at {
        lemma_text_lt_transitive(id, other_id, third_id);
    }
}

/// The order of directory records: what is replaced comes first.
pub open spec fn record_lt() -> spec_fn(EventRecordContent, EventRecordContent) -> bool {
    |a: EventRecordContent, b: EventRecordContent|
        replaces(b.event.created_at, b.event.id, a.event.created_at, a.event.id)
}

impl Ordered for RelayEventRecord {
    open spec fn before(&self, other: &Self) -> bool {
        replaces(
            other.event.created_at,
            other.event.id@,
            self.event.created_at,
            self.event.id@,
        )
    }

    proof fn order_laws(first: &Self, second: &Self, third: &Self) {
        lemma_text_lt_total(first.event.id@, second.event.id@);
        lemma_text_lt_total(second.event.id@, third.event.id@);
        lemma_text_lt_total(first.event.id@, third.event.id@);
        if text_lt(first.event.id@, second.event.id@) && text_lt(
            second.event.id@,
            third.event.id@,
        ) {
            lemma_text_lt_transitive(first.event.id@, second.event.id@, third.event.id@);
        }
        if text_lt(third.event.id@, second.event.id@) && text_lt(
            second.event.id@,
            first.event.id@,
        ) {
            lemma_text_lt_transitive(third.event.id@, second.event.id@, first.event.id@);
        }
    }

    fn precedes(&self, other: &Self) -> (earlier: bool) {
        nostr_replaceable_coordinate_is_newer(
            other.event.created_at,
            other.event.id.as_str(),
            self.event.created_at,
            self.event.id.as_str(),
        )
    }
}

pub open spec fn event_record_content() -> spec_fn(RelayEventRecord) -> EventRecordContent {
    |r: RelayEventRecord| r.deep_view()
}

/// Orders records so that what replaces others comes last.
pub fn sort_directory_records(records: Vec<RelayEventRecord>) -> (sorted: Vec<RelayEventRecord>)
    ensures
        sorted.deep_view() == sorted_by(records.deep_view(), record_lt()),
{
    let ghost given = records@;
    assert(given.map_values(event_record_content()) =~= records.deep_view());
    let sorted = sort_stable(records);
    proof {
        lemma_sorted_content(given, event_record_content(), record_lt());
        assert(sorted@.map_values(event_record_content()) =~= sorted.deep_view());
    }
    sorted
}

/// The relay lists that an account's records hold, in the order given.
pub open spec fn lists_of(account: Seq<char>, sorted: Seq<EventRecordContent>) ->
    RelayListStatusContent
    decreases sorted.len(),
{
    if sorted.len() == 0 {
        no_relay_lists()
    } else {
        let before = lists_of(account, sorted.drop_last());
        let record = sorted.last();
        if record.event.pubkey != account || record.relay_list is None {
            before
        } else if record.event.kind == KIND_NIP65_RELAY_LIST {
            RelayListStatusContent {
                nip65: record.relay_list->0,
                bootstrap_relays: extend_unique(before.bootstrap_relays, record.endpoints),
                ..before
            }
        } else if record.event.kind == KIND_MARMOT_INBOX_RELAY_LIST {
            RelayListStatusContent {
                inbox: record.relay_list->0,
                bootstrap_relays: extend_unique(before.bootstrap_relays, record.endpoints),
                ..before
            }
        } else {
            before
        }
    }
}

/// The relay lists of an account: of each kind the record that replaces the
/// others.
pub open spec fn relay_list_status(account: Seq<char>, records: Seq<EventRecordContent>) ->
    RelayListStatusContent {
    refreshed(lists_of(account, sorted_by(records, record_lt())))
}

/// Reads the relay lists of an account out of its records.
pub fn relay_list_status_from_records(account_id_hex: &str, records: Vec<RelayEventRecord>)
    -> (status: AccountRelayListStatus)
    ensures
        status.deep_view() == relay_list_status(account_id_hex@, records.deep_view()),
{
    let sorted = sort_directory_records(records);
    let ghost all = sorted.deep_view();
    let mut status = AccountRelayListStatus::empty();
    let account = account_id_hex.to_owned();
    let mut i: usize = 0;
    assert(all.take(0) =~= Seq::<EventRecordContent>::empty());
    while i < sorted.len()
        invariant
            i <= sorted@.len(),
            all == sorted.deep_view(),
            account@ == account_id_hex@,
            status.deep_view() == lists_of(account@, all.take(i as int)),
        decreases sorted.len() - i,
    {
        let record = &sorted[i];
        assert(all.take(i + 1).drop_last() =~= all.take(i as int));
        assert(all.take(i + 1).last() == record.deep_view());
        if record.event.pubkey.same(&account) {
            if let Some(state) = &record.relay_list {
                if record.event.kind == KIND_NIP65_RELAY_LIST {
                    status.nip65 = state.duplicate();
                    push_unique_texts(&mut status.bootstrap_relays, &record.endpoints);
                } else if record.event.kind == KIND_MARMOT_INBOX_RELAY_LIST {
                    status.inbox = state.duplicate();
                    push_unique_texts(&mut status.bootstrap_relays, &record.endpoints);
                }
            }
        }
        i += 1;
    }
    assert(all.take(all.len() as int) =~= all);
    status.refresh();
    status
}

/// Whether a record holds a relay list of one kind of an account.
pub open spec fn holds_list(account: Seq<char>, kind: u64, record: EventRecordContent) -> bool {
    record.event.pubkey == account && record.event.kind == kind && record.relay_list is Some
}

/// The list of one kind.
pub open spec fn list_of_kind(status: RelayListStatusContent, kind: u64) -> RelayListContent {
    if kind == KIND_NIP65_RELAY_LIST {
        status.nip65
    } else {
        status.inbox
    }
}

proof fn lemma_record_weak_order()
    ensures
        crate::order::is_weak_order(record_lt()),
{
    let lt = record_lt();
    assert forall|a: EventRecordContent, b: EventRecordContent| #[trigger] lt(a, b) implies !lt(
        b,
        a,
    ) by {
        lemma_text_lt_total(a.event.id, b.event.id);
    }
    assert forall|a: EventRecordContent, b: EventRecordContent, c: EventRecordContent|
        #![trigger lt(a, b), lt(b, c)]
        !lt(a, b) && !lt(b, c) implies !lt(a, c) by {
        lemma_text_lt_total(a.event.id, b.event.id);
        lemma_text_lt_total(b.event.id, c.event.id);
        lemma_text_lt_total(a.event.id, c.event.id);
        if text_lt(a.event.id, b.event.id) && text_lt(b.event.id, c.event.id) {
            lemma_text_lt_transitive(a.event.id, b.event.id, c.event.id);
        }
    }
}

proof fn lemma_last_list(
    account: Seq<char>,
    kind: u64,
    sorted: Seq<EventRecordContent>,
    k: int,
    state: RelayListContent,
)
    requires
        kind == KIND_NIP65_RELAY_LIST || kind == KIND_MARMOT_INBOX_RELAY_LIST,
        0 <= k < sorted.len(),
        holds_list(account, kind, sorted[k]),
        forall|p: int|
            k <= p < sorted.len() && holds_list(account, kind, #[trigger] sorted[p])
                ==> sorted[p].relay_list == Some(state),
    ensures
        list_of_kind(lists_of(account, sorted), kind) == state,
    decreases sorted.len(),
{
    let last = sorted.len() - 1;
    if !holds_list(account, kind, sorted[last]) {
        let rest = sorted.drop_last();
        assert(rest[k] == sorted[k]);
        assert forall|p: int|
            k <= p < rest.len() && holds_list(
                account,
                kind,
                #[trigger] rest[p],
            ) implies rest[p].relay_list == Some(state) by {
            assert(rest[p] == sorted[p]);
        }
        lemma_last_list(account, kind, rest, k, state);
    }
}

/// Of each kind, the list that an account is known by is the one in the record
/// that replaces every other list of that kind, in whatever order the records
/// came.
pub proof fn law_replacing_relay_list_wins(
    account: Seq<char>,
    records: Seq<EventRecordContent>,
    kind: u64,
    i: int,
)
    requires
        kind == KIND_NIP65_RELAY_LIST || kind == KIND_MARMOT_INBOX_RELAY_LIST,
        0 <= i < records.len(),
        holds_list(account, kind, records[i]),
        forall|j: int|
            0 <= j < records.len() && j != i && holds_list(account, kind, #[trigger] records[j])
                ==> replaces(
                records[i].event.created_at,
                records[i].event.id,
                records[j].event.created_at,
                records[j].event.id,
            ),
    ensures
        list_of_kind(relay_list_status(account, records), kind) == records[i].relay_list->0,
{
    let lt = record_lt();
    let sorted = sorted_by(records, lt);
    lemma_record_weak_order();
    crate::order::lemma_sorted_by(records, lt);
    crate::order::lemma_same_elements(sorted, records);
    assert(records.contains(records[i]));
    assert(sorted.contains(records[i]));
    let k = choose|k: int| 0 <= k < sorted.len() && sorted[k] == records[i];
    let state = records[i].relay_list->0;
    assert forall|p: int|
        k <= p < sorted.len() && holds_list(
            account,
            kind,
            #[trigger] sorted[p],
        ) implies sorted[p].relay_list == Some(state) by {
        if p > k {
            assert(sorted.contains(sorted[p]));
            assert(records.contains(sorted[p]));
            let j = choose|j: int| 0 <= j < records.len() && records[j] == sorted[p];
            if j != i {
                assert(!lt(sorted[p], sorted[k]));
            }
        }
    }
    lemma_last_list(account, kind, sorted, k, state);
}

/// The latest creation time that directory events may have.
#[derive(Clone, Copy, Debug, PartialEq, Eq, Structural)]
pub struct DirectoryFreshness {
    pub latest_created_at: u64,
}

pub open spec fn saturating_sum(left: u64, right: u64) -> u64 {
    if left + right > u64::MAX {
        u64::MAX
    } else {
        (left + right) as u64
    }
}

impl DirectoryFreshness {
    /// Accepts what was created no later than a skew after now.
    pub fn from_now(now: u64, max_future_skew: u64) -> (freshness: Self)
        ensures
            freshness.latest_created_at == saturating_sum(now, max_future_skew),
    {
        DirectoryFreshness { latest_created_at: now.saturating_add(max_future_skew) }
    }

    pub open spec fn fresh(&self, record: EventRecordContent) -> bool {
        record.event.created_at <= self.latest_created_at
    }

    /// Whether a record is not from the future.
    pub fn accepts(&self, record: &RelayEventRecord) -> (accepted: bool)
        ensures
            accepted == self.fresh(record.deep_view()),
    {
        record.event.created_at <= self.latest_created_at
    }
}

/// A value chosen from records, and whether records were set aside as being from
/// the future.
#[derive(Debug)]
pub struct DirectorySelection<T> {
    pub value: T,
    pub rejected_future: bool,
}

/// Whether a record is a relay list of an account.
pub open spec fn is_relay_list_of(account: Seq<char>, record: EventRecordContent) -> bool {
    record.event.pubkey == account && (record.event.kind == KIND_NIP65_RELAY_LIST
        || record.event.kind == KIND_MARMOT_INBOX_RELAY_LIST)
}

/// The records that freshness does not set aside.
pub open spec fn fresh_lists(
    account: Seq<char>,
    records: Seq<EventRecordContent>,
    freshness: DirectoryFreshness,
) -> Seq<EventRecordContent> {
    records.filter(
        |r: EventRecordContent| !is_relay_list_of(account, r) || freshness.fresh(r),
    )
}

/// Reads the relay lists of an account out of the records that are not from the
/// future.
pub fn fresh_relay_list_status_from_records(
    account_id_hex: &str,
    records: Vec<RelayEventRecord>,
    freshness: DirectoryFreshness,
) -> (selection: DirectorySelection<AccountRelayListStatus>)
    ensures
        selection.value.deep_view() == relay_list_status(
            account_id_hex@,
            fresh_lists(account_id_hex@, records.deep_view(), freshness),
        ),
        selection.rejected_future == exists|i: int|
            0 <= i < records@.len() && is_relay_list_of(
                account_id_hex@,
                #[trigger] records@[i].deep_view(),
            ) && !freshness.fresh(records@[i].deep_view()),
{
    let ghost all = records.deep_view();
    let ghost items = records@;
    let ghost keep = |r: EventRecordContent|
        !is_relay_list_of(account_id_hex@, r) || freshness.fresh(r);
    let mut source = records;
    let mut kept: Vec<RelayEventRecord> = Vec::new();
    let mut rejected_future = false;
    let account = account_id_hex.to_owned();
    let ghost mut done: int = 0;
    assert(all.take(0).filter(keep) =~= Seq::<EventRecordContent>::empty()) by {
        reveal(Seq::filter);
    }
    assert(kept.deep_view() =~= Seq::<EventRecordContent>::empty());
    assert(items.skip(0) =~= items);
    while source.len() > 0
        invariant
            0 <= done <= items.len(),
            done + source@.len() == items.len(),
            source@ == items.skip(done),
            account@ == account_id_hex@,
            all.len() == items.len(),
            forall|j: int| 0 <= j < items.len() ==> all[j] == (#[trigger] items[j]).deep_view(),
            keep == (|r: EventRecordContent|
                !is_relay_list_of(account_id_hex@, r) || freshness.fresh(r)),
            kept.deep_view() == all.take(done).filter(keep),
            rejected_future == exists|i: int|
                0 <= i < done && is_relay_list_of(
                    account_id_hex@,
                    #[trigger] items[i].deep_view(),
                ) && !freshness.fresh(items[i].deep_view()),
        decreases source.len(),
    {
        let record = source.remove(0);
        assert(record == items[done]);
        assert(source@ =~= items.skip(done + 1));
        let list = record.event.pubkey.same(&account) && (record.event.kind
            == KIND_NIP65_RELAY_LIST || record.event.kind == KIND_MARMOT_INBOX_RELAY_LIST);
        let accepted = !list || freshness.accepts(&record);
        proof {
            assert(all.take(done + 1).drop_last() =~= all.take(done));
            assert(all.take(done + 1).last() == record.deep_view());
            reveal(Seq::filter);
        }
        if accepted {
            let ghost before = kept.deep_view();
            kept.push(record);
            assert(kept.deep_view() =~= before.push(record.deep_view()));
        } else {
            rejected_future = true;
            assert(is_relay_list_of(account_id_hex@, items[done].deep_view()));
        }
        proof {
            done = done + 1;
        }
    }
    assert(all.take(all.len() as int) =~= all);
    assert(all =~= records.deep_view());
    DirectorySelection {
        value: relay_list_status_from_records(account_id_hex, kept),
        rejected_future,
    }
}

/// A query for the events of one kind by given authors.
#[derive(Debug, PartialEq, Eq)]
pub struct DirectoryEventQuery {
    pub kind: u64,
    pub authors: Vec<String>,
    pub limit: usize,
}

/// The content of a [`DirectoryEventQuery`].
#[verifier::ext_equal]
pub struct QueryContent {
    pub kind: u64,
    pub authors: Seq<Seq<char>>,
    pub limit: usize,
}

impl DeepView for DirectoryEventQuery {
    type V = QueryContent;

    open spec fn deep_view(&self) -> QueryContent {
        QueryContent { kind: self.kind, authors: self.authors.deep_view(), limit: self.limit }
    }
}

impl DirectoryEventQuery {
    pub fn new(kind: u64, authors: Vec<String>, limit: usize) -> (query: Self)
        ensures
            query.deep_view() == (QueryContent { kind, authors: authors.deep_view(), limit }),
    {
        DirectoryEventQuery { kind, authors, limit }
    }
}

/// The queries for both relay lists of an account.
pub fn relay_list_queries(account_id_hex: String) -> (queries: Vec<DirectoryEventQuery>)
    ensures
        queries.deep_view() == seq![
            QueryContent {
                kind: KIND_NIP65_RELAY_LIST,
                authors: seq![account_id_hex@],
                limit: RELAY_LIST_QUERY_LIMIT,
            },
            QueryContent {
                kind: KIND_MARMOT_INBOX_RELAY_LIST,
                authors: seq![account_id_hex@],
                limit: RELAY_LIST_QUERY_LIMIT,
            },
        ],
{
    let mut first: Vec<String> = Vec::new();
    first.push(account_id_hex.clone());
    let mut second: Vec<String> = Vec::new();
    let ghost account = account_id_hex@;
    second.push(account_id_hex);
    assert(first.deep_view() =~= seq![account]);
    assert(second.deep_view() =~= seq![account]);
    let mut queries: Vec<DirectoryEventQuery> = Vec::new();
    queries.push(DirectoryEventQuery::new(KIND_NIP65_RELAY_LIST, first, RELAY_LIST_QUERY_LIMIT));
    queries.push(
        DirectoryEventQuery::new(KIND_MARMOT_INBOX_RELAY_LIST, second, RELAY_LIST_QUERY_LIMIT),
    );
    assert(queries.deep_view() =~= seq![
        QueryContent {
            kind: KIND_NIP65_RELAY_LIST,
            authors: seq![account],
            limit: RELAY_LIST_QUERY_LIMIT,
        },
        QueryContent {
            kind: KIND_MARMOT_INBOX_RELAY_LIST,
            authors: seq![account],
            limit: RELAY_LIST_QUERY_LIMIT,
        },
    ]);
    queries
}

} // verus!
