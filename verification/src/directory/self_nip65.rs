//! Establishing an account's own relay list from a strict read of its relays.

use crate::collections::{list_contains, Key};
use crate::directory::key_packages::outcome;
use crate::directory::records::{
    nostr_replaceable_coordinate_is_newer, replaces, DirectoryEventQuery, DirectoryFreshness,
    EventContent, EventRecordContent, QueryContent, RelayEventRecord, KIND_NIP65_RELAY_LIST,
};
use crate::error::{AppError, ErrorContent, MissingRelayListKind};
use crate::order::{
    ascending_set, lemma_text_lt_total, lemma_text_lt_transitive, push_unique, push_unique_text,
    sort_dedup, text_lt,
};
use crate::text::{parse_public_key, public_key_hex};
use vstd::prelude::*;

verus! {

/// How many events of history one relay may answer with. Reaching it is
/// ambiguous, because a conforming relay holds a single winner.
pub const SETUP_NIP65_STRICT_HISTORY_LIMIT: usize = 12;

/// A record of a strict read, and whether its signature is valid.
#[derive(Debug)]
pub struct StrictRecord {
    pub record: RelayEventRecord,
    pub signature_valid: bool,
}

/// The content of a [`StrictRecord`].
#[verifier::ext_equal]
pub struct StrictContent {
    pub record: EventRecordContent,
    pub signature_valid: bool,
}

impl DeepView for StrictRecord {
    type V = StrictContent;

    open spec fn deep_view(&self) -> StrictContent {
        StrictContent {
            record: self.record.deep_view(),
            signature_valid: self.signature_valid,
        }
    }
}

/// Whom a strict read asks for: the account in hexadecimal.
pub fn strict_nip65_query(account_id_hex: &str) -> (result: Result<DirectoryEventQuery, AppError>)
    ensures
        outcome(result) == (match public_key_hex(account_id_hex@) {
            Some(account) => Ok(
                QueryContent {
                    kind: KIND_NIP65_RELAY_LIST,
                    authors: seq![account],
                    limit: SETUP_NIP65_STRICT_HISTORY_LIMIT,
                },
            ),
            None => Err(ErrorContent::InvalidPublicKey),
        }),
{
    match parse_public_key(account_id_hex) {
        Some(account) => {
            let mut authors: Vec<String> = Vec::new();
            let ghost key = account@;
            authors.push(account);
            assert(authors.deep_view() =~= seq![key]);
            Ok(
                DirectoryEventQuery::new(
                    KIND_NIP65_RELAY_LIST,
                    authors,
                    SETUP_NIP65_STRICT_HISTORY_LIMIT,
                ),
            )
        },
        None => Err(AppError::InvalidPublicKey),
    }
}

/// What makes a record of a strict read unusable.
pub open spec fn strict_fault(
    account: Seq<char>,
    freshness: DirectoryFreshness,
    strict: StrictContent,
) -> Option<Seq<char>> {
    let record = strict.record;
    if record.event.pubkey != account || record.event.kind != KIND_NIP65_RELAY_LIST {
        Some("strict setup NIP-65 discovery returned an unrelated event"@)
    } else if !strict.signature_valid {
        Some("strict setup NIP-65 discovery returned an invalid signature"@)
    } else if !freshness.fresh(record) {
        Some("strict setup NIP-65 discovery observed a future-dated event"@)
    } else if record.endpoints.len() == 0 {
        Some("strict setup NIP-65 discovery returned an unscoped event"@)
    } else if record.relay_list is None {
        Some("strict setup NIP-65 discovery returned a malformed relay list"@)
    } else {
        None
    }
}

/// What makes the first unusable record so.
pub open spec fn first_fault(
    account: Seq<char>,
    freshness: DirectoryFreshness,
    records: Seq<StrictContent>,
) -> Option<Seq<char>>
    decreases records.len(),
{
    if records.len() == 0 {
        None
    } else if strict_fault(account, freshness, records[0]) is Some {
        strict_fault(account, freshness, records[0])
    } else {
        first_fault(account, freshness, records.drop_first())
    }
}

/// The distinct events that one relay carried.
pub open spec fn events_at(records: Seq<StrictContent>, endpoint: Seq<char>) -> Seq<Seq<char>>
    decreases records.len(),
{
    if records.len() == 0 {
        Seq::empty()
    } else if records.last().record.endpoints.contains(endpoint) {
        push_unique(events_at(records.drop_last(), endpoint), records.last().record.event.id)
    } else {
        events_at(records.drop_last(), endpoint)
    }
}

/// Whether some relay's answer filled the history it may give.
pub open spec fn at_capacity(records: Seq<StrictContent>) -> bool {
    exists|endpoint: Seq<char>|
        (#[trigger] events_at(records, endpoint)).len() >= SETUP_NIP65_STRICT_HISTORY_LIMIT
}

/// The position of the record that the others do not replace.
pub open spec fn winner(records: Seq<StrictContent>) -> int
    decreases records.len(),
{
    if records.len() <= 1 {
        0
    } else {
        let before = winner(records.drop_last());
        if event_replaces(records.last().record.event, records[before].record.event) {
            records.len() - 1
        } else {
            before
        }
    }
}

pub open spec fn event_replaces(event: EventContent, other: EventContent) -> bool {
    replaces(event.created_at, event.id, other.created_at, other.id)
}

/// Every relay that carried an event.
pub open spec fn carriers(records: Seq<StrictContent>, id: Seq<char>) -> Seq<Seq<char>>
    decreases records.len(),
{
    if records.len() == 0 {
        Seq::empty()
    } else if records.last().record.event.id == id {
        carriers(records.drop_last(), id) + records.last().record.endpoints
    } else {
        carriers(records.drop_last(), id)
    }
}

/// What a strict read establishes: the record that the others do not replace,
/// with every relay that carried it.
pub open spec fn strict_choice(
    account: Seq<char>,
    freshness: DirectoryFreshness,
    records: Seq<StrictContent>,
) -> Result<Option<EventRecordContent>, ErrorContent> {
    match first_fault(account, freshness, records) {
        Some(fault) => Err(ErrorContent::RelayDirectory(fault)),
        None => if at_capacity(records) {
            Err(
                ErrorContent::RelayDirectory(
                    "strict setup NIP-65 discovery reached its bounded history capacity"@,
                ),
            )
        } else if records.len() == 0 {
            Ok(None)
        } else {
            let chosen = records[winner(records)].record;
            Ok(
                Some(
                    EventRecordContent {
                        endpoints: ascending_set(carriers(records, chosen.event.id)),
                        ..chosen
                    },
                ),
            )
        },
    }
}

fn strict_problem(account: &String, freshness: DirectoryFreshness, strict: &StrictRecord)
    -> (fault: Option<String>)
    ensures
        fault.deep_view() == strict_fault(account@, freshness, strict.deep_view()),
{
    let record = &strict.record;
    if !record.event.pubkey.same(account) || record.event.kind != KIND_NIP65_RELAY_LIST {
        Some("strict setup NIP-65 discovery returned an unrelated event".to_owned())
    } else if !strict.signature_valid {
        Some("strict setup NIP-65 discovery returned an invalid signature".to_owned())
    } else if !freshness.accepts(record) {
        Some("strict setup NIP-65 discovery observed a future-dated event".to_owned())
    } else if record.endpoints.len() == 0 {
        Some("strict setup NIP-65 discovery returned an unscoped event".to_owned())
    } else if record.relay_list.is_none() {
        Some("strict setup NIP-65 discovery returned a malformed relay list".to_owned())
    } else {
        None
    }
}

fn event_count_at(records: &Vec<StrictRecord>, endpoint: &String) -> (count: usize)
    ensures
        count == events_at(records.deep_view(), endpoint@).len(),
{
    let ghost all = records.deep_view();
    let mut ids: Vec<String> = Vec::new();
    let mut i: usize = 0;
    assert(ids.deep_view() =~= events_at(all.take(0), endpoint@));
    while i < records.len()
        invariant
            i <= records@.len(),
            all == records.deep_view(),
            ids.deep_view() == events_at(all.take(i as int), endpoint@),
        decreases records.len() - i,
    {
        assert(all.take(i + 1).drop_last() =~= all.take(i as int));
        assert(all.take(i + 1).last() == records@[i as int].deep_view());
        if list_contains(&records[i].record.endpoints, endpoint) {
            push_unique_text(&mut ids, records[i].record.event.id.clone());
        }
        i += 1;
    }
    assert(all.take(all.len() as int) =~= all);
    ids.len()
}

proof fn lemma_events_need_a_carrier(records: Seq<StrictContent>, endpoint: Seq<char>)
    requires
        events_at(records, endpoint).len() > 0,
    ensures
        exists|i: int|
            0 <= i < records.len() && (#[trigger] records[i]).record.endpoints.contains(endpoint),
    decreases records.len(),
{
    if records.last().record.endpoints.contains(endpoint) {
        assert(records[records.len() - 1].record.endpoints.contains(endpoint));
    } else {
        lemma_events_need_a_carrier(records.drop_last(), endpoint);
        let i = choose|i: int|
            0 <= i < records.drop_last().len() && (
            #[trigger] records.drop_last()[i]).record.endpoints.contains(endpoint);
        assert(records[i].record.endpoints.contains(endpoint));
    }
}

fn reaches_capacity(records: &Vec<StrictRecord>) -> (reached: bool)
    ensures
        reached == at_capacity(records.deep_view()),
{
    let ghost all = records.deep_view();
    let mut i: usize = 0;
    while i < records.len()
        invariant
            i <= records@.len(),
            all == records.deep_view(),
            forall|a: int, endpoint: Seq<char>|
                #![trigger all[a], events_at(all, endpoint)]
                0 <= a < i && all[a].record.endpoints.contains(endpoint) ==> events_at(
                    all,
                    endpoint,
                ).len() < SETUP_NIP65_STRICT_HISTORY_LIMIT,
        decreases records.len() - i,
    {
        let endpoints = &records[i].record.endpoints;
        assert(all[i as int].record.endpoints == endpoints.deep_view());
        let mut k: usize = 0;
        while k < endpoints.len()
            invariant
                k <= endpoints@.len(),
                i < records@.len(),
                all == records.deep_view(),
                forall|b: int|
                    0 <= b < k ==> events_at(all, #[trigger] endpoints.deep_view()[b]).len()
                        < SETUP_NIP65_STRICT_HISTORY_LIMIT,
            decreases endpoints.len() - k,
        {
            assert(endpoints.deep_view()[k as int] == endpoints@[k as int]@);
            if event_count_at(records, &endpoints[k]) >= SETUP_NIP65_STRICT_HISTORY_LIMIT {
                return true;
            }
            k += 1;
        }
        assert forall|a: int, endpoint: Seq<char>|
            #![trigger all[a], events_at(all, endpoint)]
            0 <= a < i + 1 && all[a].record.endpoints.contains(endpoint) implies events_at(
            all,
            endpoint,
        ).len() < SETUP_NIP65_STRICT_HISTORY_LIMIT by {
            if a == i {
                let b = choose|b: int|
                    0 <= b < endpoints.deep_view().len() && endpoints.deep_view()[b] == endpoint;
                assert(events_at(all, endpoints.deep_view()[b]).len()
                    < SETUP_NIP65_STRICT_HISTORY_LIMIT);
            }
        }
        i += 1;
    }
    proof {
        if at_capacity(all) {
            let endpoint = choose|endpoint: Seq<char>|
                (#[trigger] events_at(all, endpoint)).len() >= SETUP_NIP65_STRICT_HISTORY_LIMIT;
            lemma_events_need_a_carrier(all, endpoint);
            let a = choose|a: int|
                0 <= a < all.len() && (#[trigger] all[a]).record.endpoints.contains(endpoint);
            assert(events_at(all, endpoint).len() < SETUP_NIP65_STRICT_HISTORY_LIMIT);
        }
    }
    false
}

proof fn lemma_winner_range(records: Seq<StrictContent>)
    requires
        records.len() > 0,
    ensures
        0 <= winner(records) < records.len(),
    decreases records.len(),
{
    if records.len() > 1 {
        lemma_winner_range(records.drop_last());
    }
}

fn find_winner(records: &Vec<StrictRecord>) -> (index: usize)
    requires
        records@.len() > 0,
    ensures
        index == winner(records.deep_view()),
        index < records@.len(),
{
    let ghost all = records.deep_view();
    let mut best: usize = 0;
    let mut i: usize = 1;
    while i < records.len()
        invariant
            1 <= i <= records@.len(),
            all == records.deep_view(),
            best < i,
            best == winner(all.take(i as int)),
        decreases records.len() - i,
    {
        assert(all.take(i + 1).drop_last() =~= all.take(i as int));
        assert(all.take(i + 1).last() == records@[i as int].deep_view());
        assert(all.take(i + 1)[best as int] == records@[best as int].deep_view());
        if nostr_replaceable_coordinate_is_newer(
            records[i].record.event.created_at,
            records[i].record.event.id.as_str(),
            records[best].record.event.created_at,
            records[best].record.event.id.as_str(),
        ) {
            best = i;
        }
        i += 1;
    }
    assert(all.take(all.len() as int) =~= all);
    best
}

fn collect_carriers(records: &Vec<StrictRecord>, id: &String) -> (endpoints: Vec<String>)
    ensures
        endpoints.deep_view() == ascending_set(carriers(records.deep_view(), id@)),
{
    let ghost all = records.deep_view();
    let mut endpoints: Vec<String> = Vec::new();
    let mut i: usize = 0;
    assert(endpoints.deep_view() =~= carriers(all.take(0), id@));
    while i < records.len()
        invariant
            i <= records@.len(),
            all == records.deep_view(),
            endpoints.deep_view() == carriers(all.take(i as int), id@),
        decreases records.len() - i,
    {
        assert(all.take(i + 1).drop_last() =~= all.take(i as int));
        assert(all.take(i + 1).last() == records@[i as int].deep_view());
        if records[i].record.event.id.same(id) {
            let ghost before = endpoints.deep_view();
            let mut more = crate::collections::copy_list(&records[i].record.endpoints);
            let ghost added = more.deep_view();
            let ghost left = endpoints@;
            let ghost right = more@;
            endpoints.append(&mut more);
            assert(endpoints.deep_view() =~= before + added);
        }
        i += 1;
    }
    assert(all.take(all.len() as int) =~= all);
    sort_dedup(endpoints)
}

/// Chooses the event that establishes an account's own relay list. Anything that
/// makes the read inconclusive is an error rather than permission to adopt an
/// older event.
pub fn choose_self_nip65_event(
    account_id_hex: &String,
    freshness: DirectoryFreshness,
    records: Vec<StrictRecord>,
) -> (result: Result<Option<RelayEventRecord>, AppError>)
    ensures
        strict_choice(account_id_hex@, freshness, records.deep_view()) == (match result {
            Ok(chosen) => Ok(chosen.deep_view()),
            Err(error) => Err(error.deep_view()),
        }),
{
    let ghost all = records.deep_view();
    let mut i: usize = 0;
    assert(all.skip(0) =~= all);
    while i < records.len()
        invariant
            i <= records@.len(),
            all == records.deep_view(),
            first_fault(account_id_hex@, freshness, all) == first_fault(
                account_id_hex@,
                freshness,
                all.skip(i as int),
            ),
        decreases records.len() - i,
    {
        assert(all.skip(i as int)[0] == records@[i as int].deep_view());
        assert(all.skip(i as int).drop_first() =~= all.skip(i + 1));
        if let Some(fault) = strict_problem(account_id_hex, freshness, &records[i]) {
            return Err(AppError::RelayDirectory(fault));
        }
        i += 1;
    }
    if reaches_capacity(&records) {
        return Err(
            AppError::RelayDirectory(
                "strict setup NIP-65 discovery reached its bounded history capacity".to_owned(),
            ),
        );
    }
    if records.len() == 0 {
        return Ok(None);
    }
    let index = find_winner(&records);
    let endpoints = collect_carriers(&records, &records[index].record.event.id);
    let mut records = records;
    let ghost chosen = records@[index as int];
    assert(all[index as int] == chosen.deep_view());
    let mut chosen = records.remove(index).record;
    chosen.endpoints = endpoints;
    Ok(Some(chosen))
}

/// Accepts a chosen event where some relay that it names may be used.
pub fn admit_self_nip65_event(
    chosen: RelayEventRecord,
    safe_write_relays: &Vec<String>,
) -> (result: Result<RelayEventRecord, AppError>)
    ensures
        outcome(result) == (if safe_write_relays@.len() == 0 {
            Err(ErrorContent::MissingRelayLists(seq![MissingRelayListKind::Nip65]))
        } else {
            Ok(chosen.deep_view())
        }),
{
    if safe_write_relays.len() == 0 {
        let mut missing: Vec<MissingRelayListKind> = Vec::new();
        missing.push(MissingRelayListKind::Nip65);
        assert(missing@ =~= seq![MissingRelayListKind::Nip65]);
        return Err(AppError::MissingRelayLists(missing));
    }
    Ok(chosen)
}

proof fn lemma_winner(records: Seq<StrictContent>, j: int)
    requires
        0 <= j < records.len(),
    ensures
        0 <= winner(records) < records.len(),
        !event_replaces(records[j].record.event, records[winner(records)].record.event),
    decreases records.len(),
{
    lemma_winner_range(records);
    let id = records[j].record.event.id;
    lemma_text_lt_total(id, id);
    if records.len() > 1 {
        let rest = records.drop_last();
        lemma_winner_range(rest);
        let last = records.last().record.event;
        let before = rest[winner(rest)].record.event;
        assert(records[winner(rest)] == rest[winner(rest)]);
        lemma_text_lt_total(last.id, before.id);
        lemma_text_lt_total(last.id, last.id);
        if j < rest.len() {
            lemma_winner(rest, j);
            assert(rest[j] == records[j]);
            let other = records[j].record.event;
            lemma_text_lt_total(other.id, before.id);
            lemma_text_lt_total(other.id, last.id);
            if text_lt(other.id, last.id) && text_lt(last.id, before.id) {
                lemma_text_lt_transitive(other.id, last.id, before.id);
            }
        }
    }
}

/// A strict read establishes an event that no other event it returned replaces,
/// and never one that is from the future, badly signed or without relays.
pub proof fn law_strict_read_adopts_the_newest(
    account: Seq<char>,
    freshness: DirectoryFreshness,
    records: Seq<StrictContent>,
    j: int,
)
    requires
        strict_choice(account, freshness, records) is Ok,
        strict_choice(account, freshness, records)->Ok_0 is Some,
        0 <= j < records.len(),
    ensures
        ({
            let chosen = strict_choice(account, freshness, records)->Ok_0->Some_0;
            &&& !event_replaces(records[j].record.event, chosen.event)
            &&& freshness.fresh(records[j].record)
            &&& records[j].signature_valid
            &&& records[j].record.event.pubkey == account
            &&& chosen.relay_list is Some
        }),
{
    lemma_winner(records, j);
    lemma_no_fault(account, freshness, records, j);
    lemma_no_fault(account, freshness, records, winner(records));
}

proof fn lemma_no_fault(
    account: Seq<char>,
    freshness: DirectoryFreshness,
    records: Seq<StrictContent>,
    j: int,
)
    requires
        first_fault(account, freshness, records) is None,
        0 <= j < records.len(),
    ensures
        strict_fault(account, freshness, records[j]) is None,
    decreases records.len(),
{
    if j > 0 {
        lemma_no_fault(account, freshness, records.drop_first(), j - 1);
    }
}

} // verus!
