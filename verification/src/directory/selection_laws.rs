//! What is chosen out of the events that relays deliver: the newest that counts, and
//! nothing that does not.

use crate::directory::entry::{DirectoryKeyPackageContent, EntryContent};
use crate::directory::key_packages::{
    advertised, cached_package, event_id_bytes, first_tag, fresh_choice, fresh_or_cached,
    fresh_packages, id_list_fault, id_texts, last_package, latest_package, metadata_fault,
    package_of, package_of_record, package_record_lt, tag_count, tag_fault, tag_named, tag_value,
    FetchedContent, MetadataContent, PackageRecordContent, ProtocolProfile,
    PRIVATE_USE_APP_COMPONENT_ID_START,
};
use crate::directory::records::{
    fresh_lists, lists_of, no_relays, record_lt, refreshed, relay_list_status, replaces,
    DirectoryFreshness, EventRecordContent, RelayListStatusContent, KIND_MARMOT_INBOX_RELAY_LIST,
    KIND_MARMOT_KEY_PACKAGE, KIND_NIP65_RELAY_LIST,
};
use crate::directory::self_nip65::{carriers, strict_choice, winner, StrictContent};
use crate::error::{ErrorContent, MissingRelayListKind};
use crate::order::{
    is_weak_order, lemma_ascending_set_exists, lemma_extend_unique, lemma_same_elements,
    lemma_sorted_by, sorted_by, text_lt,
};
use crate::text::{hex_bytes, is_hex_text};
use vstd::prelude::*;

verus! {

/// A later event replaces an earlier one; of two at one time the one with the lesser
/// id replaces the other.
pub proof fn law_later_event_replaces(
    created_at: u64,
    id: Seq<char>,
    other_created_at: u64,
    other_id: Seq<char>,
)
    ensures
        created_at > other_created_at ==> replaces(created_at, id, other_created_at, other_id),
        created_at < other_created_at ==> !replaces(created_at, id, other_created_at, other_id),
        created_at == other_created_at ==> (replaces(created_at, id, other_created_at, other_id)
            <==> text_lt(id, other_id)),
{
}

proof fn lemma_record_weak_order()
    ensures
        is_weak_order(record_lt()),
        is_weak_order(package_record_lt()),
{
    let lt = record_lt();
    assert forall|a: EventRecordContent, b: EventRecordContent| #[trigger] lt(a, b) implies !lt(
        b,
        a,
    ) by {
        crate::order::lemma_text_lt_total(a.event.id, b.event.id);
    }
    assert forall|a: EventRecordContent, b: EventRecordContent, c: EventRecordContent|
        #![trigger lt(a, b), lt(b, c)]
        !lt(a, b) && !lt(b, c) implies !lt(a, c) by {
        lemma_not_replaced(
            a.event.created_at,
            a.event.id,
            b.event.created_at,
            b.event.id,
            c.event.created_at,
            c.event.id,
        );
    }
    let plt = package_record_lt();
    assert forall|a: PackageRecordContent, b: PackageRecordContent| #[trigger] plt(
        a,
        b,
    ) implies !plt(b, a) by {
        crate::order::lemma_text_lt_total(a.record.event.id, b.record.event.id);
    }
    assert forall|a: PackageRecordContent, b: PackageRecordContent, c: PackageRecordContent|
        #![trigger plt(a, b), plt(b, c)]
        !plt(a, b) && !plt(b, c) implies !plt(a, c) by {
        lemma_not_replaced(
            a.record.event.created_at,
            a.record.event.id,
            b.record.event.created_at,
            b.record.event.id,
            c.record.event.created_at,
            c.record.event.id,
        );
    }
}

proof fn lemma_not_replaced(
    at: u64,
    id: Seq<char>,
    second_at: u64,
    second_id: Seq<char>,
    third_at: u64,
    third_id: Seq<char>,
)
    requires
        !replaces(second_at, second_id, at, id),
        !replaces(third_at, third_id, second_at, second_id),
    ensures
        !replaces(third_at, third_id, at, id),
{
    crate::order::lemma_text_lt_total(id, second_id);
    crate::order::lemma_text_lt_total(second_id, third_id);
    crate::order::lemma_text_lt_total(id, third_id);
    if text_lt(id, second_id) && text_lt(second_id, third_id) {
        crate::order::lemma_text_lt_transitive(id, second_id, third_id);
    }
}

spec fn lists_drawn(
    account: Seq<char>,
    records: Seq<EventRecordContent>,
    status: RelayListStatusContent,
) -> bool {
    &&& status.nip65 == no_relays() || exists|i: int|
        0 <= i < records.len() && (#[trigger] records[i]).event.pubkey == account
            && records[i].event.kind == KIND_NIP65_RELAY_LIST && records[i].relay_list == Some(
            status.nip65,
        )
    &&& status.inbox == no_relays() || exists|i: int|
        0 <= i < records.len() && (#[trigger] records[i]).event.pubkey == account
            && records[i].event.kind == KIND_MARMOT_INBOX_RELAY_LIST && records[i].relay_list
            == Some(status.inbox)
    &&& forall|relay: Seq<char>| #[trigger]
        status.bootstrap_relays.contains(relay) <==> exists|i: int|
            0 <= i < records.len() && (#[trigger] records[i]).event.pubkey == account && (
            records[i].event.kind == KIND_NIP65_RELAY_LIST || records[i].event.kind
                == KIND_MARMOT_INBOX_RELAY_LIST) && records[i].relay_list is Some
                && records[i].endpoints.contains(relay)
    &&& status.default_relays.len() == 0
}

proof fn lemma_lists_drawn(account: Seq<char>, sorted: Seq<EventRecordContent>)
    ensures
        lists_drawn(account, sorted, lists_of(account, sorted)),
    decreases sorted.len(),
{
    let after = lists_of(account, sorted);
    if sorted.len() > 0 {
        let rest = sorted.drop_last();
        let last = sorted.last();
        let before = lists_of(account, rest);
        lemma_lists_drawn(account, rest);
        lemma_extend_unique(before.bootstrap_relays, last.endpoints);
        assert(sorted[sorted.len() - 1] == last);
        assert forall|i: int| 0 <= i < rest.len() implies sorted[i] == #[trigger] rest[i] by {}
        if after.nip65 != no_relays() && after.nip65 == before.nip65 {
            let i = choose|i: int|
                0 <= i < rest.len() && (#[trigger] rest[i]).event.pubkey == account
                    && rest[i].event.kind == KIND_NIP65_RELAY_LIST && rest[i].relay_list == Some(
                    before.nip65,
                );
            assert(sorted[i] == rest[i]);
        }
        if after.inbox != no_relays() && after.inbox == before.inbox {
            let i = choose|i: int|
                0 <= i < rest.len() && (#[trigger] rest[i]).event.pubkey == account
                    && rest[i].event.kind == KIND_MARMOT_INBOX_RELAY_LIST && rest[i].relay_list
                    == Some(before.inbox);
            assert(sorted[i] == rest[i]);
        }
        assert forall|relay: Seq<char>| #[trigger]
            after.bootstrap_relays.contains(relay) <==> exists|i: int|
                0 <= i < sorted.len() && (#[trigger] sorted[i]).event.pubkey == account && (
                sorted[i].event.kind == KIND_NIP65_RELAY_LIST || sorted[i].event.kind
                    == KIND_MARMOT_INBOX_RELAY_LIST) && sorted[i].relay_list is Some
                    && sorted[i].endpoints.contains(relay) by {
            if before.bootstrap_relays.contains(relay) {
                let i = choose|i: int|
                    0 <= i < rest.len() && (#[trigger] rest[i]).event.pubkey == account && (
                    rest[i].event.kind == KIND_NIP65_RELAY_LIST || rest[i].event.kind
                        == KIND_MARMOT_INBOX_RELAY_LIST) && rest[i].relay_list is Some
                        && rest[i].endpoints.contains(relay);
                assert(sorted[i] == rest[i]);
            }
            if exists|i: int|
                0 <= i < sorted.len() && (#[trigger] sorted[i]).event.pubkey == account && (
                sorted[i].event.kind == KIND_NIP65_RELAY_LIST || sorted[i].event.kind
                    == KIND_MARMOT_INBOX_RELAY_LIST) && sorted[i].relay_list is Some
                    && sorted[i].endpoints.contains(relay) {
                let i = choose|i: int|
                    0 <= i < sorted.len() && (#[trigger] sorted[i]).event.pubkey == account && (
                    sorted[i].event.kind == KIND_NIP65_RELAY_LIST || sorted[i].event.kind
                        == KIND_MARMOT_INBOX_RELAY_LIST) && sorted[i].relay_list is Some
                        && sorted[i].endpoints.contains(relay);
                if i < rest.len() {
                    assert(rest[i] == sorted[i]);
                }
            }
        }
    }
}

/// The relay lists of an account are those of events that it published, or empty. The
/// relays that are known to serve it are exactly those that delivered such an event, and
/// exactly the lists that are empty are missing.
pub proof fn law_relay_lists_come_from_own_events(
    account: Seq<char>,
    records: Seq<EventRecordContent>,
)
    ensures
        ({
            let status = relay_list_status(account, records);
            &&& status.nip65 == no_relays() || exists|i: int|
                0 <= i < records.len() && (#[trigger] records[i]).event.pubkey == account
                    && records[i].event.kind == KIND_NIP65_RELAY_LIST && records[i].relay_list
                    == Some(status.nip65)
            &&& status.inbox == no_relays() || exists|i: int|
                0 <= i < records.len() && (#[trigger] records[i]).event.pubkey == account
                    && records[i].event.kind == KIND_MARMOT_INBOX_RELAY_LIST
                    && records[i].relay_list == Some(status.inbox)
            &&& forall|relay: Seq<char>| #[trigger]
                status.bootstrap_relays.contains(relay) <==> exists|i: int|
                    0 <= i < records.len() && (#[trigger] records[i]).event.pubkey == account && (
                    records[i].event.kind == KIND_NIP65_RELAY_LIST || records[i].event.kind
                        == KIND_MARMOT_INBOX_RELAY_LIST) && records[i].relay_list is Some
                        && records[i].endpoints.contains(relay)
            &&& status.missing.contains(MissingRelayListKind::Nip65)
                <==> status.nip65.relays.len() == 0
            &&& status.missing.contains(MissingRelayListKind::Inbox)
                <==> status.inbox.relays.len() == 0
        }),
{
    let lt = record_lt();
    let sorted = sorted_by(records, lt);
    let status = relay_list_status(account, records);
    lemma_record_weak_order();
    lemma_sorted_by(records, lt);
    lemma_same_elements(sorted, records);
    lemma_lists_drawn(account, sorted);
    law_missing_lists_are_the_empty_ones(lists_of(account, sorted));
    if status.nip65 != no_relays() {
        let i = choose|i: int|
            0 <= i < sorted.len() && (#[trigger] sorted[i]).event.pubkey == account
                && sorted[i].event.kind == KIND_NIP65_RELAY_LIST && sorted[i].relay_list == Some(
                status.nip65,
            );
        lemma_place(records, sorted, i);
    }
    if status.inbox != no_relays() {
        let i = choose|i: int|
            0 <= i < sorted.len() && (#[trigger] sorted[i]).event.pubkey == account
                && sorted[i].event.kind == KIND_MARMOT_INBOX_RELAY_LIST && sorted[i].relay_list
                == Some(status.inbox);
        lemma_place(records, sorted, i);
    }
    assert forall|relay: Seq<char>| #[trigger]
        status.bootstrap_relays.contains(relay) <==> exists|i: int|
            0 <= i < records.len() && (#[trigger] records[i]).event.pubkey == account && (
            records[i].event.kind == KIND_NIP65_RELAY_LIST || records[i].event.kind
                == KIND_MARMOT_INBOX_RELAY_LIST) && records[i].relay_list is Some
                && records[i].endpoints.contains(relay) by {
        if status.bootstrap_relays.contains(relay) {
            let i = choose|i: int|
                0 <= i < sorted.len() && (#[trigger] sorted[i]).event.pubkey == account && (
                sorted[i].event.kind == KIND_NIP65_RELAY_LIST || sorted[i].event.kind
                    == KIND_MARMOT_INBOX_RELAY_LIST) && sorted[i].relay_list is Some
                    && sorted[i].endpoints.contains(relay);
            lemma_place(records, sorted, i);
        }
        if exists|i: int|
            0 <= i < records.len() && (#[trigger] records[i]).event.pubkey == account && (
            records[i].event.kind == KIND_NIP65_RELAY_LIST || records[i].event.kind
                == KIND_MARMOT_INBOX_RELAY_LIST) && records[i].relay_list is Some
                && records[i].endpoints.contains(relay) {
            let i = choose|i: int|
                0 <= i < records.len() && (#[trigger] records[i]).event.pubkey == account && (
                records[i].event.kind == KIND_NIP65_RELAY_LIST || records[i].event.kind
                    == KIND_MARMOT_INBOX_RELAY_LIST) && records[i].relay_list is Some
                    && records[i].endpoints.contains(relay);
            lemma_place(sorted, records, i);
        }
    }
}

proof fn lemma_place<T>(into: Seq<T>, from: Seq<T>, i: int)
    requires
        0 <= i < from.len(),
        forall|x: T| #![auto] from.contains(x) <==> into.contains(x),
    ensures
        exists|j: int| 0 <= j < into.len() && #[trigger] into[j] == from[i],
{
    assert(from.contains(from[i]));
    assert(into.contains(from[i]));
}

/// A status names exactly those lists as missing that are empty.
pub proof fn law_missing_lists_are_the_empty_ones(status: RelayListStatusContent)
    ensures
        refreshed(status).missing.contains(MissingRelayListKind::Nip65)
            <==> status.nip65.relays.len() == 0,
        refreshed(status).missing.contains(MissingRelayListKind::Inbox)
            <==> status.inbox.relays.len() == 0,
        refreshed(status).nip65 == status.nip65,
        refreshed(status).inbox == status.inbox,
        refreshed(status).bootstrap_relays == status.bootstrap_relays,
        refreshed(status).default_relays == status.default_relays,
        refreshed(refreshed(status)) == refreshed(status),
{
    let missing = refreshed(status).missing;
    if status.nip65.relays.len() == 0 {
        assert(missing[0] == MissingRelayListKind::Nip65);
    }
    if status.inbox.relays.len() == 0 {
        assert(missing[missing.len() - 1] == MissingRelayListKind::Inbox);
    }
}

/// Of the events of an account, exactly those that are later than allowed are set
/// aside before its relay lists are read. Other events are let be.
pub proof fn law_only_future_lists_are_set_aside(
    account: Seq<char>,
    records: Seq<EventRecordContent>,
    freshness: DirectoryFreshness,
    record: EventRecordContent,
)
    ensures
        fresh_lists(account, records, freshness).contains(record) <==> records.contains(record) && (
        record.event.pubkey == account && (record.event.kind == KIND_NIP65_RELAY_LIST
            || record.event.kind == KIND_MARMOT_INBOX_RELAY_LIST) ==> record.event.created_at
            <= freshness.latest_created_at),
{
    let kept = fresh_lists(account, records, freshness);
    let keep = |r: EventRecordContent|
        !crate::directory::records::is_relay_list_of(account, r) || freshness.fresh(r);
    assert(kept == records.filter(keep));
    if records.contains(record) && keep(record) {
        let k = choose|k: int| 0 <= k < records.len() && records[k] == record;
        records.lemma_filter_contains(keep, k);
    }
    if kept.contains(record) {
        let k = choose|k: int| 0 <= k < kept.len() && kept[k] == record;
        records.lemma_filter_pred(keep, k);
        records.lemma_filter_contains_rev(keep, record);
    }
}

/// Whether an event of an account holds a key package that can be used.
pub open spec fn is_usable(account: Seq<char>, record: PackageRecordContent) -> bool {
    &&& record.record.event.kind == KIND_MARMOT_KEY_PACKAGE
    &&& record.record.event.pubkey == account
    &&& package_of_record(record) matches Ok(fetched) && fetched.key_package.protocol_profile
        == ProtocolProfile::Current
}

/// Whether an event of an account should hold a key package and does not.
pub open spec fn is_faulty(account: Seq<char>, record: PackageRecordContent) -> bool {
    &&& record.record.event.kind == KIND_MARMOT_KEY_PACKAGE
    &&& record.record.event.pubkey == account
    &&& package_of_record(record) is Err
}

proof fn lemma_last_package(
    account: Seq<char>,
    sorted: Seq<PackageRecordContent>,
    error: Option<ErrorContent>,
)
    ensures
        match last_package(account, sorted, error) {
            Ok(fetched) => exists|i: int|
                0 <= i < sorted.len() && is_usable(account, #[trigger] sorted[i])
                    && package_of_record(sorted[i]) == Ok::<FetchedContent, ErrorContent>(fetched)
                    && forall|j: int|
                    i < j < sorted.len() ==> !is_usable(account, #[trigger] sorted[j]),
            Err(fault) => {
                &&& forall|j: int| 0 <= j < sorted.len() ==> !is_usable(account, #[trigger] sorted[j])
                &&& error is Some ==> fault == error->0
                &&& error is None ==> if forall|j: int|
                    0 <= j < sorted.len() ==> !is_faulty(account, #[trigger] sorted[j]) {
                    fault == ErrorContent::MissingKeyPackage(account)
                } else {
                    exists|i: int|
                        0 <= i < sorted.len() && is_faulty(account, #[trigger] sorted[i])
                            && package_of_record(sorted[i]) == Err::<FetchedContent, ErrorContent>(
                            fault,
                        ) && forall|j: int|
                            i < j < sorted.len() ==> !is_faulty(account, #[trigger] sorted[j])
                }
            },
        },
    decreases sorted.len(),
{
    if sorted.len() > 0 {
        let rest = sorted.drop_last();
        let last = sorted.last();
        let end = sorted.len() - 1;
        assert(sorted[end] == last);
        assert forall|i: int| 0 <= i < rest.len() implies sorted[i] == #[trigger] rest[i] by {}
        if is_usable(account, last) {
            assert(is_usable(account, sorted[end]));
        } else {
            let next = if is_faulty(account, last) && error is None {
                Some(package_of_record(last)->Err_0)
            } else {
                error
            };
            lemma_last_package(account, rest, next);
            assert(last_package(account, sorted, error) == last_package(account, rest, next));
            match last_package(account, rest, next) {
                Ok(fetched) => {
                    let i = choose|i: int|
                        0 <= i < rest.len() && is_usable(account, #[trigger] rest[i])
                            && package_of_record(rest[i]) == Ok::<FetchedContent, ErrorContent>(
                            fetched,
                        ) && forall|j: int|
                            i < j < rest.len() ==> !is_usable(account, #[trigger] rest[j]);
                    assert(is_usable(account, sorted[i]));
                    assert forall|j: int| i < j < sorted.len() implies !is_usable(
                        account,
                        #[trigger] sorted[j],
                    ) by {
                        if j < end {
                            assert(sorted[j] == rest[j]);
                        }
                    }
                },
                Err(fault) => {
                    assert forall|j: int| 0 <= j < sorted.len() implies !is_usable(
                        account,
                        #[trigger] sorted[j],
                    ) by {
                        if j < end {
                            assert(sorted[j] == rest[j]);
                        }
                    }
                    if error is None {
                        if is_faulty(account, last) {
                            assert(is_faulty(account, sorted[end]));
                            assert(package_of_record(sorted[end]) == Err::<
                                FetchedContent,
                                ErrorContent,
                            >(fault));
                        } else if forall|j: int|
                            0 <= j < rest.len() ==> !is_faulty(account, #[trigger] rest[j]) {
                            assert forall|j: int| 0 <= j < sorted.len() implies !is_faulty(
                                account,
                                #[trigger] sorted[j],
                            ) by {
                                if j < end {
                                    assert(sorted[j] == rest[j]);
                                }
                            }
                        } else {
                            let i = choose|i: int|
                                0 <= i < rest.len() && is_faulty(account, #[trigger] rest[i])
                                    && package_of_record(rest[i]) == Err::<
                                    FetchedContent,
                                    ErrorContent,
                                >(fault) && forall|j: int|
                                    i < j < rest.len() ==> !is_faulty(account, #[trigger] rest[j]);
                            assert(is_faulty(account, sorted[i]));
                            assert forall|j: int| i < j < sorted.len() implies !is_faulty(
                                account,
                                #[trigger] sorted[j],
                            ) by {
                                if j < end {
                                    assert(sorted[j] == rest[j]);
                                }
                            }
                        }
                    }
                },
            }
        }
    }
}

/// Of the events of an account the newest that holds a usable key package is chosen: one
/// is found exactly where there is one, and no usable one replaces it.
pub proof fn law_newest_usable_package_is_chosen(
    account: Seq<char>,
    records: Seq<PackageRecordContent>,
)
    ensures
        latest_package(account, records) is Ok <==> exists|i: int|
            0 <= i < records.len() && is_usable(account, #[trigger] records[i]),
        latest_package(account, records) matches Ok(fetched) ==> exists|i: int|
            0 <= i < records.len() && is_usable(account, #[trigger] records[i])
                && package_of_record(records[i]) == Ok::<FetchedContent, ErrorContent>(fetched)
                && forall|j: int|
                0 <= j < records.len() && is_usable(account, #[trigger] records[j]) ==> !replaces(
                    records[j].record.event.created_at,
                    records[j].record.event.id,
                    records[i].record.event.created_at,
                    records[i].record.event.id,
                ),
        latest_package(account, records) matches Err(fault) ==> (fault
            == ErrorContent::MissingKeyPackage(account) || exists|i: int|
            0 <= i < records.len() && is_faulty(account, #[trigger] records[i])
                && package_of_record(records[i]) == Err::<FetchedContent, ErrorContent>(fault)),
        latest_package(account, records) is Err && (forall|i: int|
            0 <= i < records.len() ==> !is_faulty(account, #[trigger] records[i]))
            ==> latest_package(account, records)->Err_0 == ErrorContent::MissingKeyPackage(account),
{
    let lt = package_record_lt();
    let sorted = sorted_by(records, lt);
    lemma_record_weak_order();
    lemma_sorted_by(records, lt);
    lemma_same_elements(sorted, records);
    lemma_last_package(account, sorted, None);
    match latest_package(account, records) {
        Ok(fetched) => {
            let i = choose|i: int|
                0 <= i < sorted.len() && is_usable(account, #[trigger] sorted[i])
                    && package_of_record(sorted[i]) == Ok::<FetchedContent, ErrorContent>(fetched)
                    && forall|j: int|
                    i < j < sorted.len() ==> !is_usable(account, #[trigger] sorted[j]);
            lemma_place(records, sorted, i);
            let k = choose|k: int| 0 <= k < records.len() && #[trigger] records[k] == sorted[i];
            assert(is_usable(account, records[k]));
            assert forall|j: int|
                0 <= j < records.len() && is_usable(account, #[trigger] records[j]) implies !replaces(
                records[j].record.event.created_at,
                records[j].record.event.id,
                records[k].record.event.created_at,
                records[k].record.event.id,
            ) by {
                lemma_place(sorted, records, j);
                let m = choose|m: int| 0 <= m < sorted.len() && #[trigger] sorted[m] == records[j];
                if m == i {
                    crate::order::lemma_text_lt_total(
                        sorted[i].record.event.id,
                        sorted[i].record.event.id,
                    );
                } else {
                    assert(m < i);
                    assert(!lt(sorted[i], sorted[m]));
                    assert(!replaces(
                        sorted[m].record.event.created_at,
                        sorted[m].record.event.id,
                        sorted[i].record.event.created_at,
                        sorted[i].record.event.id,
                    ));
                }
            }
        },
        Err(fault) => {
            if exists|i: int| 0 <= i < records.len() && is_usable(account, #[trigger] records[i]) {
                let i = choose|i: int|
                    0 <= i < records.len() && is_usable(account, #[trigger] records[i]);
                lemma_place(sorted, records, i);
            }
            if exists|i: int| 0 <= i < sorted.len() && is_faulty(account, #[trigger] sorted[i]) {
                let i = choose|i: int|
                    0 <= i < sorted.len() && is_faulty(account, #[trigger] sorted[i])
                        && package_of_record(sorted[i]) == Err::<FetchedContent, ErrorContent>(
                        fault,
                    );
                lemma_place(records, sorted, i);
                let k = choose|k: int| 0 <= k < records.len() && #[trigger] records[k] == sorted[i];
                assert(is_faulty(account, records[k]));
            }
        },
    }
}

/// No key package from the future is chosen, and it is told whether one was set aside.
pub proof fn law_no_future_package_is_chosen(
    account: Seq<char>,
    records: Seq<PackageRecordContent>,
    freshness: DirectoryFreshness,
)
    ensures
        fresh_choice(account, records, freshness) matches Ok((chosen, rejected)) ==> {
            &&& rejected <==> exists|i: int|
                0 <= i < records.len() && (#[trigger] records[i]).record.event.kind
                    == KIND_MARMOT_KEY_PACKAGE && records[i].record.event.pubkey == account
                    && records[i].record.event.created_at > freshness.latest_created_at
            &&& chosen matches Some(fetched) ==> exists|i: int|
                0 <= i < records.len() && is_usable(account, #[trigger] records[i])
                    && records[i].record.event.created_at <= freshness.latest_created_at
                    && package_of_record(records[i]) == Ok::<FetchedContent, ErrorContent>(fetched)
            &&& chosen is None ==> forall|i: int|
                0 <= i < records.len() && is_usable(account, #[trigger] records[i])
                    ==> records[i].record.event.created_at > freshness.latest_created_at
        },
{
    let kept = fresh_packages(account, records, freshness);
    let keep = |r: PackageRecordContent|
        !crate::directory::key_packages::is_package_of(account, r) || freshness.fresh(r.record);
    assert(kept == records.filter(keep));
    law_newest_usable_package_is_chosen(account, kept);
    if let Ok((chosen, rejected)) = fresh_choice(account, records, freshness) {
        if let Some(fetched) = chosen {
            let i = choose|i: int|
                0 <= i < kept.len() && is_usable(account, #[trigger] kept[i]) && package_of_record(
                    kept[i],
                ) == Ok::<FetchedContent, ErrorContent>(fetched);
            records.lemma_filter_pred(keep, i);
            assert(kept.contains(kept[i]));
            records.lemma_filter_contains_rev(keep, kept[i]);
            let k = choose|k: int| 0 <= k < records.len() && records[k] == kept[i];
            assert(is_usable(account, records[k]));
        } else {
            assert forall|i: int|
                0 <= i < records.len() && is_usable(
                    account,
                    #[trigger] records[i],
                ) implies records[i].record.event.created_at > freshness.latest_created_at by {
                if keep(records[i]) {
                    records.lemma_filter_contains(keep, i);
                    let k = choose|k: int| 0 <= k < kept.len() && kept[k] == records[i];
                    assert(is_usable(account, kept[k]));
                }
            }
        }
    }
}

/// What relays offer comes first. The key package that is cached is used only where
/// relays offered none but one from the future.
pub proof fn law_cached_package_is_a_last_resort(
    account: Seq<char>,
    selection: (Option<FetchedContent>, bool),
    cached: Option<EntryContent>,
    metadata: Result<MetadataContent, Seq<char>>,
)
    ensures
        selection.0 matches Some(offered) ==> fresh_or_cached(account, selection, cached, metadata)
            == Ok::<FetchedContent, ErrorContent>(offered),
        selection.0 is None && !selection.1 ==> fresh_or_cached(
            account,
            selection,
            cached,
            metadata,
        ) == Err::<FetchedContent, ErrorContent>(ErrorContent::MissingKeyPackage(account)),
        selection.0 is None && (cached is None || cached->0.key_package is None)
            ==> fresh_or_cached(account, selection, cached, metadata) == Err::<
            FetchedContent,
            ErrorContent,
        >(ErrorContent::MissingKeyPackage(account)),
        selection.0 is None ==> (fresh_or_cached(
            account,
            selection,
            cached,
            metadata,
        ) matches Ok(fetched) ==> selection.1 && (cached matches Some(entry)
            && entry.key_package matches Some(package) && fetched.created_at == package.created_at
            && fetched.key_package_event_id == package.key_package_event_id
            && fetched.key_package_id == package.key_package_id
            && fetched.key_package.bytes == hex_bytes(package.key_package_hex)
            && fetched.account_id_hex == entry.account_id_hex)),
{
}

/// A cached key package is used only where it is of the current profile, its credential
/// is of the account, and its reference is the stored one.
pub proof fn law_cached_package_is_checked(
    account: Seq<char>,
    package: DirectoryKeyPackageContent,
    metadata: Result<MetadataContent, Seq<char>>,
)
    ensures
        cached_package(account, package, metadata) is Ok <==> {
            &&& is_hex_text(package.key_package_hex)
            &&& package.key_package_event_id.len() == 0 || event_id_bytes(
                package.key_package_event_id,
            ) is Ok
            &&& metadata matches Ok(known) && known.protocol_profile == ProtocolProfile::Current
                && known.credential_identity_hex == account && (package.key_package_ref_hex.len()
                == 0 || package.key_package_ref_hex == known.key_package_ref_hex)
        },
        cached_package(account, package, metadata) matches Ok((decoded, reference))
            ==> decoded.bytes == hex_bytes(package.key_package_hex) && metadata is Ok && reference
            == metadata->Ok_0.key_package_ref_hex && decoded.protocol_profile
            == ProtocolProfile::Current && (decoded.source_event_id is None
            <==> package.key_package_event_id.len() == 0),
{
}

/// Whether exactly one tag has a name, the one at a position.
pub open spec fn only_tag(tags: Seq<Seq<Seq<char>>>, name: Seq<char>, at: int) -> bool {
    &&& 0 <= at < tags.len()
    &&& tags[at].len() > 0 && tags[at][0] == name
    &&& forall|j: int|
        0 <= j < tags.len() && j != at ==> (#[trigger] tags[j]).len() == 0 || tags[j][0] != name
}

proof fn lemma_tags(tags: Seq<Seq<Seq<char>>>, name: Seq<char>)
    ensures
        tag_count(tags, name) == 0 <==> (forall|j: int|
            0 <= j < tags.len() ==> !tag_named(#[trigger] tags[j], name)),
        tag_count(tags, name) == 0 ==> tag_value(tags, name) is None && first_tag(tags, name)
            is None,
        tag_count(tags, name) == 1 ==> exists|at: int|
            #[trigger] only_tag(tags, name, at) && first_tag(tags, name) == Some(tags[at])
                && tag_value(tags, name) == (if tags[at].len() > 1 {
                Some(tags[at][1])
            } else {
                None
            }),
        forall|at: int| #[trigger] only_tag(tags, name, at) ==> tag_count(tags, name) == 1,
    decreases tags.len(),
{
    if tags.len() > 0 {
        let rest = tags.drop_first();
        lemma_tags(rest, name);
        assert forall|j: int| 0 <= j < rest.len() implies tags[j + 1] == #[trigger] rest[j] by {}
        if tag_count(tags, name) == 0 {
            assert forall|j: int| 0 <= j < tags.len() implies !tag_named(#[trigger] tags[j], name) by {
                if j > 0 {
                    assert(tags[j] == rest[j - 1]);
                }
            }
        }
        if forall|j: int| 0 <= j < tags.len() ==> !tag_named(#[trigger] tags[j], name) {
            assert forall|j: int| 0 <= j < rest.len() implies !tag_named(#[trigger] rest[j], name) by {
                assert(rest[j] == tags[j + 1]);
            }
            assert(!tag_named(tags[0], name));
        }
        if tag_count(tags, name) == 1 {
            if tag_named(tags[0], name) {
                assert forall|j: int| 0 <= j < tags.len() && j != 0 implies (
                #[trigger] tags[j]).len() == 0 || tags[j][0] != name by {
                    assert(tags[j] == rest[j - 1]);
                    assert(!tag_named(rest[j - 1], name));
                }
                assert(only_tag(tags, name, 0));
            } else {
                let at = choose|at: int|
                    #[trigger] only_tag(rest, name, at) && first_tag(rest, name) == Some(rest[at])
                        && tag_value(rest, name) == (if rest[at].len() > 1 {
                        Some(rest[at][1])
                    } else {
                        None
                    });
                assert forall|j: int| 0 <= j < tags.len() && j != at + 1 implies (
                #[trigger] tags[j]).len() == 0 || tags[j][0] != name by {
                    if j > 0 {
                        assert(tags[j] == rest[j - 1]);
                    }
                }
                assert(tags[at + 1] == rest[at]);
                assert(only_tag(tags, name, at + 1));
            }
        }
        assert forall|at: int| #[trigger] only_tag(tags, name, at) implies tag_count(tags, name)
            == 1 by {
            if at == 0 {
                assert forall|j: int| 0 <= j < rest.len() implies !tag_named(
                    #[trigger] rest[j],
                    name,
                ) by {
                    assert(rest[j] == tags[j + 1]);
                }
            } else {
                assert(!tag_named(tags[0], name)) by {
                    assert(tags[0].len() == 0 || tags[0][0] != name);
                }
                assert(rest[at - 1] == tags[at]);
                assert forall|j: int| 0 <= j < rest.len() && j != at - 1 implies (
                #[trigger] rest[j]).len() == 0 || rest[j][0] != name by {
                    assert(rest[j] == tags[j + 1]);
                }
                assert(only_tag(rest, name, at - 1));
            }
        }
    }
}

/// A tag passes exactly where it is the only one of its name and has the expected
/// value.
pub proof fn law_required_tag_stands_once(
    tags: Seq<Seq<Seq<char>>>,
    name: Seq<char>,
    expected: Seq<char>,
)
    ensures
        tag_fault(tags, name, expected) is None <==> exists|at: int|
            #[trigger] only_tag(tags, name, at) && tags[at].len() > 1 && tags[at][1] == expected,
{
    lemma_tags(tags, name);
    if tag_count(tags, name) == 1 {
        let at = choose|at: int|
            #[trigger] only_tag(tags, name, at) && first_tag(tags, name) == Some(tags[at])
                && tag_value(tags, name) == (if tags[at].len() > 1 {
                Some(tags[at][1])
            } else {
                None
            });
        assert(only_tag(tags, name, at));
        if exists|b: int|
            #[trigger] only_tag(tags, name, b) && tags[b].len() > 1 && tags[b][1] == expected {
            let b = choose|b: int|
                #[trigger] only_tag(tags, name, b) && tags[b].len() > 1 && tags[b][1] == expected;
            if b != at {
                assert(tags[b].len() == 0 || tags[b][0] != name);
            }
        }
    }
}

/// A tag that lists identifiers passes exactly where it is the only one of its name and
/// lists each identifier of the key package once, in whatever order, and no other.
pub proof fn law_listed_identifiers_are_those_of_the_package(
    tags: Seq<Seq<Seq<char>>>,
    name: Seq<char>,
    ids: Seq<u16>,
)
    ensures
        id_list_fault(tags, name, ids) is None <==> exists|at: int|
            #[trigger] only_tag(tags, name, at) && tags[at].skip(1).no_duplicates() && (forall|
                text: Seq<char>,
            | #[trigger]
                tags[at].skip(1).contains(text) <==> id_texts(ids).contains(text)),
{
    lemma_tags(tags, name);
    if tag_count(tags, name) == 1 {
        let at = choose|at: int|
            #[trigger] only_tag(tags, name, at) && first_tag(tags, name) == Some(tags[at]);
        assert(only_tag(tags, name, at));
        assert forall|b: int| #[trigger] only_tag(tags, name, b) implies b == at by {
            if b != at {
                assert(tags[b].len() == 0 || tags[b][0] != name);
            }
        }
    }
}

/// Of its components a key package advertises exactly those in the private range.
pub proof fn law_private_components_are_advertised(components: Seq<u16>, id: u16)
    ensures
        advertised(components).contains(id) <==> components.contains(id) && id
            >= PRIVATE_USE_APP_COMPONENT_ID_START,
{
    let keep = |id: u16| id >= PRIVATE_USE_APP_COMPONENT_ID_START;
    let kept = advertised(components);
    assert(kept == components.filter(keep));
    if components.contains(id) && keep(id) {
        let k = choose|k: int| 0 <= k < components.len() && components[k] == id;
        components.lemma_filter_contains(keep, k);
    }
    if kept.contains(id) {
        let k = choose|k: int| 0 <= k < kept.len() && kept[k] == id;
        components.lemma_filter_pred(keep, k);
        components.lemma_filter_contains_rev(keep, id);
    }
}

/// A key package is read of an event exactly where the event passes every check, and
/// what is read is what the event says: its author, slot, time and id, the bytes of its
/// content, and the relays that delivered it.
pub proof fn law_read_package_tells_its_event(
    record: PackageRecordContent,
    content: Result<Seq<u8>, Seq<char>>,
)
    ensures
        ({
            let event = record.record.event;
            &&& package_of(record, content) is Ok <==> {
                &&& tag_fault(event.tags, "mls_protocol_version"@, "1.0"@) is None
                &&& tag_value(event.tags, "d"@) matches Some(slot) && slot.len() > 0
                &&& tag_value(event.tags, "i"@) matches Some(reference) && reference.len() > 0
                &&& content matches Ok(bytes) && bytes.len() > 0
                &&& event_id_bytes(event.id) is Ok
                &&& record.metadata matches Ok(metadata) && metadata_fault(event, metadata) is None
            }
            &&& package_of(record, content) matches Ok(fetched) ==> {
                &&& fetched.account_id_hex == event.pubkey
                &&& Some(fetched.key_package_id) == tag_value(event.tags, "d"@)
                &&& fetched.key_package_event_id == event.id
                &&& fetched.created_at == event.created_at
                &&& fetched.key_package.bytes == content->Ok_0
                &&& fetched.key_package.source_event_id == Some(hex_bytes(event.id))
                &&& fetched.key_package.protocol_profile == record.metadata->Ok_0.protocol_profile
                &&& forall|relay: Seq<char>| #[trigger]
                    fetched.source_relays.contains(relay) <==> record.record.endpoints.contains(
                        relay,
                    )
                &&& fetched.source_relays.no_duplicates()
            }
        }),
{
    lemma_extend_unique(Seq::<Seq<char>>::empty(), record.record.endpoints);
}

/// The metadata of a key package passes exactly where the event's tags name its
/// ciphersuite, extensions, proposals and private components, its credential is of the
/// author, and its reference is the one that the event names.
pub proof fn law_metadata_matches_the_event(
    event: crate::directory::records::EventContent,
    metadata: MetadataContent,
)
    ensures
        metadata_fault(event, metadata) is None <==> {
            &&& tag_fault(
                event.tags,
                "mls_ciphersuite"@,
                crate::directory::key_packages::id_text(metadata.ciphersuite),
            ) is None
            &&& id_list_fault(event.tags, "mls_extensions"@, metadata.mls_extensions) is None
            &&& id_list_fault(event.tags, "mls_proposals"@, metadata.mls_proposals) is None
            &&& id_list_fault(
                event.tags,
                "app_components"@,
                advertised(metadata.app_components),
            ) is None
            &&& metadata.credential_identity_hex == event.pubkey
            &&& tag_value(event.tags, "i"@) == Some(metadata.key_package_ref_hex)
            &&& metadata.key_package_ref_hex.len() > 0
        },
{
}

proof fn lemma_carriers(records: Seq<StrictContent>, id: Seq<char>, relay: Seq<char>)
    ensures
        carriers(records, id).contains(relay) <==> exists|i: int|
            0 <= i < records.len() && (#[trigger] records[i]).record.event.id == id
                && records[i].record.endpoints.contains(relay),
    decreases records.len(),
{
    if records.len() > 0 {
        let rest = records.drop_last();
        let last = records.last();
        lemma_carriers(rest, id, relay);
        assert(records[records.len() - 1] == last);
        crate::directory::merge::lemma_concat_contains(
            carriers(rest, id),
            last.record.endpoints,
            relay,
        );
        if carriers(rest, id).contains(relay) {
            let i = choose|i: int|
                0 <= i < rest.len() && (#[trigger] rest[i]).record.event.id == id
                    && rest[i].record.endpoints.contains(relay);
            assert(records[i] == rest[i]);
        }
        if exists|i: int|
            0 <= i < records.len() && (#[trigger] records[i]).record.event.id == id
                && records[i].record.endpoints.contains(relay) {
            let i = choose|i: int|
                0 <= i < records.len() && (#[trigger] records[i]).record.event.id == id
                    && records[i].record.endpoints.contains(relay);
            if i < rest.len() {
                assert(rest[i] == records[i]);
            }
        }
    }
}

proof fn lemma_winner_stands(records: Seq<StrictContent>)
    requires
        records.len() > 0,
    ensures
        0 <= winner(records) < records.len(),
    decreases records.len(),
{
    if records.len() > 1 {
        lemma_winner_stands(records.drop_last());
    }
}

/// A strict reading adopts an event that relays returned, with exactly the relays that
/// returned it. Nothing is adopted exactly where nothing was returned.
pub proof fn law_strict_read_adopts_a_returned_event(
    account: Seq<char>,
    freshness: DirectoryFreshness,
    records: Seq<StrictContent>,
)
    ensures
        strict_choice(account, freshness, records) matches Ok(choice) ==> {
            &&& choice is None <==> records.len() == 0
            &&& choice matches Some(chosen) ==> {
                &&& chosen.event.kind == KIND_NIP65_RELAY_LIST && chosen.event.pubkey == account
                &&& exists|i: int|
                    0 <= i < records.len() && (#[trigger] records[i]).record.event == chosen.event
                        && records[i].record.relay_list == chosen.relay_list
                &&& forall|relay: Seq<char>| #[trigger]
                    chosen.endpoints.contains(relay) <==> exists|i: int|
                        0 <= i < records.len() && (#[trigger] records[i]).record.event.id
                            == chosen.event.id && records[i].record.endpoints.contains(relay)
            }
        },
{
    if let Ok(Some(chosen)) = strict_choice(account, freshness, records) {
        let w = winner(records);
        lemma_winner_stands(records);
        assert(records[w].record.event == chosen.event);
        lemma_faultless(account, freshness, records, w);
        lemma_ascending_set_exists(carriers(records, chosen.event.id));
        assert forall|relay: Seq<char>| #[trigger]
            chosen.endpoints.contains(relay) <==> exists|i: int|
                0 <= i < records.len() && (#[trigger] records[i]).record.event.id
                    == chosen.event.id && records[i].record.endpoints.contains(relay) by {
            lemma_carriers(records, chosen.event.id, relay);
        }
    }
}

proof fn lemma_faultless(
    account: Seq<char>,
    freshness: DirectoryFreshness,
    records: Seq<StrictContent>,
    i: int,
)
    requires
        crate::directory::self_nip65::first_fault(account, freshness, records) is None,
        0 <= i < records.len(),
    ensures
        crate::directory::self_nip65::strict_fault(account, freshness, records[i]) is None,
    decreases records.len(),
{
    if i > 0 {
        assert(records.drop_first()[i - 1] == records[i]);
        lemma_faultless(account, freshness, records.drop_first(), i - 1);
    }
}

/// An event passes a strict reading exactly where it is a NIP-65 list of the account,
/// well signed, not from the future, tied to a relay, and readable.
pub proof fn law_strict_read_checks_every_event(
    account: Seq<char>,
    freshness: DirectoryFreshness,
    strict: StrictContent,
)
    ensures
        crate::directory::self_nip65::strict_fault(account, freshness, strict) is None <==> {
            &&& strict.record.event.pubkey == account
            &&& strict.record.event.kind == KIND_NIP65_RELAY_LIST
            &&& strict.signature_valid
            &&& strict.record.event.created_at <= freshness.latest_created_at
            &&& strict.record.endpoints.len() > 0
            &&& strict.record.relay_list is Some
        },
{
}

} // verus!
