//! What merging key packages keeps: merged records are addressable and tidy, and
//! merging them again changes nothing.

use crate::directory::merge::{
    absorbed, by_event, by_twin, events_distinct, first_such, has_copy, identity_lt, joined,
    lemma_concat_contains,
    lemma_first_such, lemma_identity_weak_order, lemma_merged_events_are_distinct,
    lemma_publication_rank, local_copy, local_pass,
    local_twin, merged, normalized, publication_lt, relay_pass, with_local, RecordContent,
};
use crate::order::{
    is_ascending, is_weak_order, lemma_ascending_distinct, lemma_ascending_set,
    lemma_ascending_set_exists, lemma_same_elements, lemma_sorted_by, lemma_sorted_unique,
    sorted_by,
};
use vstd::prelude::*;

verus! {

/// Whether a record's relays are ascending, and so without repetition.
pub open spec fn is_tidy(record: RecordContent) -> bool {
    is_ascending(record.source_relays)
}

pub open spec fn all_tidy(records: Seq<RecordContent>) -> bool {
    forall|i: int| 0 <= i < records.len() ==> is_tidy(#[trigger] records[i])
}

/// Whether some relay record names an event.
pub open spec fn relay_names(records: Seq<RecordContent>, event: Seq<char>) -> bool {
    exists|i: int|
        0 <= i < records.len() && (#[trigger] records[i]).relay && records[i].key_package_event_id
            == event
}

/// Whether every relay record with an event is still one of that event, in its place.
spec fn keeps_relays(before: Seq<RecordContent>, after: Seq<RecordContent>) -> bool {
    &&& before.len() <= after.len()
    &&& forall|i: int|
        0 <= i < before.len() && (#[trigger] before[i]).relay
            && before[i].key_package_event_id.len() > 0 ==> after[i].relay
            && after[i].key_package_event_id == before[i].key_package_event_id
}

proof fn lemma_absorbed_is_tidy(existing: RecordContent, record: RecordContent)
    ensures
        is_tidy(absorbed(existing, record)),
{
    lemma_ascending_set_exists(existing.source_relays + record.source_relays);
}

proof fn lemma_joined_keeps(
    records: Seq<RecordContent>,
    record: RecordContent,
    chosen: spec_fn(RecordContent, RecordContent) -> bool,
)
    requires
        all_tidy(records),
        is_tidy(record),
    ensures
        all_tidy(joined(records, record, chosen)),
        keeps_relays(records, joined(records, record, chosen)),
{
    lemma_first_such(records, record, chosen, 0);
    let i = first_such(records, record, chosen, 0);
    if i < records.len() {
        lemma_absorbed_is_tidy(records[i], record);
    }
    let out = joined(records, record, chosen);
    assert forall|k: int| 0 <= k < out.len() implies is_tidy(#[trigger] out[k]) by {
        if k < records.len() && k != i {
            assert(out[k] == records[k]);
        }
    }
}

proof fn lemma_with_local_keeps(records: Seq<RecordContent>, record: RecordContent)
    requires
        all_tidy(records),
        is_tidy(record),
    ensures
        all_tidy(with_local(records, record)),
        keeps_relays(records, with_local(records, record)),
{
    if has_copy(records, record) {
        let out = with_local(records, record);
        assert forall|k: int| 0 <= k < out.len() implies is_tidy(#[trigger] out[k]) by {
            lemma_absorbed_is_tidy(records[k], record);
        }
    } else {
        lemma_joined_keeps(records, record, by_twin());
    }
}

proof fn lemma_relay_pass_names(sorted: Seq<RecordContent>)
    requires
        all_tidy(sorted),
    ensures
        all_tidy(relay_pass(sorted)),
        forall|i: int|
            0 <= i < sorted.len() && (#[trigger] sorted[i]).relay
                && sorted[i].key_package_event_id.len() > 0 ==> relay_names(
                relay_pass(sorted),
                sorted[i].key_package_event_id,
            ),
    decreases sorted.len(),
{
    if sorted.len() > 0 {
        let rest = sorted.drop_last();
        assert forall|i: int| 0 <= i < rest.len() implies is_tidy(#[trigger] rest[i]) by {
            assert(rest[i] == sorted[i]);
        }
        lemma_relay_pass_names(rest);
        let before = relay_pass(rest);
        let after = relay_pass(sorted);
        let last = sorted.last();
        assert(is_tidy(sorted[sorted.len() - 1]));
        if last.relay {
            lemma_joined_keeps(before, last, by_event());
            lemma_first_such(before, last, by_event(), 0);
        }
        assert forall|i: int|
            0 <= i < sorted.len() && (#[trigger] sorted[i]).relay
                && sorted[i].key_package_event_id.len() > 0 implies relay_names(
            after,
            sorted[i].key_package_event_id,
        ) by {
            if i < rest.len() {
                assert(rest[i] == sorted[i]);
                lemma_names_kept(before, after, sorted[i].key_package_event_id);
            } else {
                let k = first_such(before, last, by_event(), 0);
                assert(after[k].relay && after[k].key_package_event_id
                    == last.key_package_event_id);
            }
        }
    }
}

proof fn lemma_names_kept(before: Seq<RecordContent>, after: Seq<RecordContent>, event: Seq<char>)
    requires
        keeps_relays(before, after),
        event.len() > 0,
        relay_names(before, event),
    ensures
        relay_names(after, event),
{
    let i = choose|i: int|
        0 <= i < before.len() && (#[trigger] before[i]).relay && before[i].key_package_event_id
            == event;
    assert(after[i].relay && after[i].key_package_event_id == event);
}

proof fn lemma_local_pass_keeps(records: Seq<RecordContent>, sorted: Seq<RecordContent>)
    requires
        all_tidy(records),
        all_tidy(sorted),
    ensures
        all_tidy(local_pass(records, sorted)),
        keeps_relays(records, local_pass(records, sorted)),
    decreases sorted.len(),
{
    if sorted.len() > 0 {
        let rest = sorted.drop_last();
        assert forall|i: int| 0 <= i < rest.len() implies is_tidy(#[trigger] rest[i]) by {
            assert(rest[i] == sorted[i]);
        }
        lemma_local_pass_keeps(records, rest);
        assert(is_tidy(sorted[sorted.len() - 1]));
        if sorted.last().local {
            lemma_with_local_keeps(local_pass(records, rest), sorted.last());
        }
    }
}

pub proof fn lemma_publication_weak_order()
    ensures
        is_weak_order(publication_lt()),
{
    let lt = publication_lt();
    assert forall|a: RecordContent, b: RecordContent| #[trigger] lt(a, b) implies !lt(b, a) by {
        lemma_publication_rank(a, b, b);
    }
    assert forall|a: RecordContent, b: RecordContent, c: RecordContent|
        #![trigger lt(a, b), lt(b, c)]
        !lt(a, b) && !lt(b, c) implies !lt(a, c) by {
        lemma_publication_rank(a, b, c);
    }
}

/// The records that are merged, in the order in which they are.
pub open spec fn ordered(records: Seq<RecordContent>) -> Seq<RecordContent> {
    sorted_by(records.map_values(|r: RecordContent| normalized(r)), identity_lt())
}

pub proof fn lemma_ordered(records: Seq<RecordContent>)
    ensures
        all_tidy(ordered(records)),
        forall|r: RecordContent| #[trigger]
            records.contains(r) ==> ordered(records).contains(normalized(r)),
        forall|x: RecordContent| #[trigger]
            ordered(records).contains(x) ==> exists|i: int|
                0 <= i < records.len() && x == normalized(#[trigger] records[i]),
{
    let clean = records.map_values(|r: RecordContent| normalized(r));
    let out = ordered(records);
    lemma_identity_weak_order();
    lemma_sorted_by(clean, identity_lt());
    lemma_same_elements(out, clean);
    assert forall|x: RecordContent| #[trigger] out.contains(x) implies exists|i: int|
        0 <= i < records.len() && x == normalized(#[trigger] records[i]) by {
        assert(clean.contains(x));
        let i = choose|i: int| 0 <= i < clean.len() && clean[i] == x;
        assert(x == normalized(records[i]));
    }
    assert forall|k: int| 0 <= k < out.len() implies is_tidy(#[trigger] out[k]) by {
        assert(out.contains(out[k]));
        let i = choose|i: int|
            0 <= i < records.len() && out[k] == normalized(#[trigger] records[i]);
        lemma_ascending_set_exists(records[i].source_relays);
    }
    assert forall|r: RecordContent| #[trigger] records.contains(r) implies out.contains(
        normalized(r),
    ) by {
        let i = choose|i: int| 0 <= i < records.len() && records[i] == r;
        assert(clean[i] == normalized(r));
        assert(clean.contains(normalized(r)));
    }
}

/// Every event that a relay record names is named by a relay record after merging, no
/// event is listed twice, and the relays of every merged record are ascending and listed
/// once.
pub proof fn law_merge_keeps_every_relay_event_once(records: Seq<RecordContent>)
    ensures
        events_distinct(merged(records)),
        forall|i: int|
            0 <= i < records.len() && (#[trigger] records[i]).relay
                && records[i].key_package_event_id.len() > 0 ==> relay_names(
                merged(records),
                records[i].key_package_event_id,
            ),
        forall|i: int|
            0 <= i < merged(records).len() ==> is_ascending(
                (#[trigger] merged(records)[i]).source_relays,
            ) && merged(records)[i].source_relays.no_duplicates(),
{
    let sorted = ordered(records);
    let relayed = relay_pass(sorted);
    let passed = local_pass(relayed, sorted);
    let out = merged(records);
    lemma_merged_events_are_distinct(records);
    lemma_ordered(records);
    lemma_relay_pass_names(sorted);
    lemma_local_pass_keeps(relayed, sorted);
    lemma_publication_weak_order();
    lemma_sorted_by(passed, publication_lt());
    lemma_same_elements(out, passed);
    assert forall|i: int|
        0 <= i < records.len() && (#[trigger] records[i]).relay
            && records[i].key_package_event_id.len() > 0 implies relay_names(
        out,
        records[i].key_package_event_id,
    ) by {
        let event = records[i].key_package_event_id;
        assert(records.contains(records[i]));
        assert(sorted.contains(normalized(records[i])));
        let k = choose|k: int| 0 <= k < sorted.len() && sorted[k] == normalized(records[i]);
        assert(sorted[k].relay && sorted[k].key_package_event_id == event);
        lemma_names_kept(relayed, passed, event);
        let j = choose|j: int|
            0 <= j < passed.len() && (#[trigger] passed[j]).relay && passed[j].key_package_event_id
                == event;
        assert(passed.contains(passed[j]));
        let m = choose|m: int| 0 <= m < out.len() && out[m] == passed[j];
        assert(out[m].relay && out[m].key_package_event_id == event);
    }
    assert forall|i: int| 0 <= i < out.len() implies is_ascending(
        (#[trigger] out[i]).source_relays,
    ) && out[i].source_relays.no_duplicates() by {
        assert(out.contains(out[i]));
        let j = choose|j: int| 0 <= j < passed.len() && passed[j] == out[i];
        assert(is_tidy(passed[j]));
        lemma_ascending_distinct(out[i].source_relays);
    }
}

/// Whether a record names its event and its package.
pub open spec fn is_named(record: RecordContent) -> bool {
    record.key_package_event_id.len() > 0 && record.key_package_ref_hex.len() > 0
}

spec fn only_local(record: RecordContent) -> bool {
    record.local && !record.relay
}

/// What holds of records that have nothing left to merge: each is named, tidy and known
/// to somebody, no two are of one event, and no two that only the device knows are of
/// one package.
spec fn is_settled(records: Seq<RecordContent>) -> bool {
    &&& records.no_duplicates()
    &&& forall|a: RecordContent| #[trigger]
        records.contains(a) ==> is_named(a) && is_tidy(a) && (a.relay || a.local)
    &&& forall|a: RecordContent, b: RecordContent|
        #![trigger records.contains(a), records.contains(b)]
        records.contains(a) && records.contains(b) && (a.key_package_event_id
            == b.key_package_event_id || only_local(a) && only_local(b) && a.key_package_ref_hex
            == b.key_package_ref_hex) ==> a == b
}

/// The same, by position.
spec fn settled_at(records: Seq<RecordContent>) -> bool {
    &&& forall|i: int|
        0 <= i < records.len() ==> is_named(#[trigger] records[i]) && is_tidy(records[i]) && (
        records[i].relay || records[i].local)
    &&& forall|i: int, j: int|
        0 <= i < j < records.len() ==> (#[trigger] records[i]).key_package_event_id != (
        #[trigger] records[j]).key_package_event_id && !(only_local(records[i]) && only_local(
            records[j],
        ) && records[i].key_package_ref_hex == records[j].key_package_ref_hex)
}

proof fn lemma_settled(records: Seq<RecordContent>)
    requires
        settled_at(records),
    ensures
        is_settled(records),
{
    assert forall|a: RecordContent, b: RecordContent|
        #![trigger records.contains(a), records.contains(b)]
        records.contains(a) && records.contains(b) && (a.key_package_event_id
            == b.key_package_event_id || only_local(a) && only_local(b) && a.key_package_ref_hex
            == b.key_package_ref_hex) implies a == b by {
        let i = choose|i: int| 0 <= i < records.len() && records[i] == a;
        let j = choose|j: int| 0 <= j < records.len() && records[j] == b;
        if i < j {
            assert(records[i].key_package_event_id != records[j].key_package_event_id);
        }
        if j < i {
            assert(records[j].key_package_event_id != records[i].key_package_event_id);
        }
    }
    assert forall|i: int, j: int| 0 <= i < records.len() && 0 <= j < records.len() && i
        != j implies records[i] != records[j] by {
        if i < j {
            assert(records[i].key_package_event_id != records[j].key_package_event_id);
        } else {
            assert(records[j].key_package_event_id != records[i].key_package_event_id);
        }
    }
}

proof fn lemma_relay_pass_settles(sorted: Seq<RecordContent>)
    requires
        forall|i: int|
            0 <= i < sorted.len() ==> is_named(#[trigger] sorted[i]) && is_tidy(sorted[i]),
    ensures
        settled_at(relay_pass(sorted)),
        forall|i: int|
            0 <= i < relay_pass(sorted).len() ==> (#[trigger] relay_pass(sorted)[i]).relay,
    decreases sorted.len(),
{
    if sorted.len() > 0 {
        let rest = sorted.drop_last();
        let last = sorted.last();
        assert forall|i: int| 0 <= i < rest.len() implies is_named(#[trigger] rest[i]) && is_tidy(
            rest[i],
        ) by {
            assert(rest[i] == sorted[i]);
        }
        lemma_relay_pass_settles(rest);
        assert(is_named(sorted[sorted.len() - 1]));
        if last.relay {
            let before = relay_pass(rest);
            let out = relay_pass(sorted);
            lemma_first_such(before, last, by_event(), 0);
            let k = first_such(before, last, by_event(), 0);
            if k < before.len() {
                lemma_absorbed_is_tidy(before[k], last);
            }
            assert forall|i: int, j: int| 0 <= i < j < out.len() implies (
            #[trigger] out[i]).key_package_event_id != (#[trigger] out[j]).key_package_event_id by {
                if k < before.len() {
                    assert(before[i].key_package_event_id != before[j].key_package_event_id);
                } else if j < before.len() {
                    assert(before[i].key_package_event_id != before[j].key_package_event_id);
                } else {
                    assert(!by_event()(before[i], last));
                }
            }
        }
    }
}

proof fn lemma_with_local_settles(records: Seq<RecordContent>, record: RecordContent)
    requires
        settled_at(records),
        is_named(record),
        is_tidy(record),
        record.local,
    ensures
        settled_at(with_local(records, record)),
{
    let out = with_local(records, record);
    if has_copy(records, record) {
        assert forall|i: int| 0 <= i < out.len() implies is_named(#[trigger] out[i]) && is_tidy(
            out[i],
        ) && (out[i].relay || out[i].local) by {
            lemma_absorbed_is_tidy(records[i], record);
            assert(is_named(records[i]));
        }
        assert forall|i: int, j: int| 0 <= i < j < out.len() implies (
        #[trigger] out[i]).key_package_event_id != (#[trigger] out[j]).key_package_event_id && !(
        only_local(out[i]) && only_local(out[j]) && out[i].key_package_ref_hex
            == out[j].key_package_ref_hex) by {
            assert(is_named(records[i]) && is_named(records[j]));
            assert(records[i].key_package_event_id != records[j].key_package_event_id);
        }
    } else {
        lemma_first_such(records, record, by_twin(), 0);
        let k = first_such(records, record, by_twin(), 0);
        if k < records.len() {
            lemma_absorbed_is_tidy(records[k], record);
            assert(is_named(records[k]));
            assert forall|i: int, j: int| 0 <= i < j < out.len() implies (
            #[trigger] out[i]).key_package_event_id != (#[trigger] out[j]).key_package_event_id
                && !(only_local(out[i]) && only_local(out[j]) && out[i].key_package_ref_hex
                == out[j].key_package_ref_hex) by {
                assert(records[i].key_package_event_id != records[j].key_package_event_id);
            }
        } else {
            assert forall|i: int, j: int| 0 <= i < j < out.len() implies (
            #[trigger] out[i]).key_package_event_id != (#[trigger] out[j]).key_package_event_id
                && !(only_local(out[i]) && only_local(out[j]) && out[i].key_package_ref_hex
                == out[j].key_package_ref_hex) by {
                if j < records.len() {
                    assert(records[i].key_package_event_id != records[j].key_package_event_id);
                } else {
                    assert(!local_copy(records[i], record));
                    assert(!by_twin()(records[i], record));
                }
            }
        }
    }
}

proof fn lemma_local_pass_settles(records: Seq<RecordContent>, sorted: Seq<RecordContent>)
    requires
        settled_at(records),
        forall|i: int|
            0 <= i < sorted.len() ==> is_named(#[trigger] sorted[i]) && is_tidy(sorted[i]),
    ensures
        settled_at(local_pass(records, sorted)),
    decreases sorted.len(),
{
    if sorted.len() > 0 {
        let rest = sorted.drop_last();
        assert forall|i: int| 0 <= i < rest.len() implies is_named(#[trigger] rest[i]) && is_tidy(
            rest[i],
        ) by {
            assert(rest[i] == sorted[i]);
        }
        lemma_local_pass_settles(records, rest);
        assert(is_named(sorted[sorted.len() - 1]));
        if sorted.last().local {
            lemma_with_local_settles(local_pass(records, rest), sorted.last());
        }
    }
}

proof fn lemma_settled_reordered(left: Seq<RecordContent>, right: Seq<RecordContent>)
    requires
        is_settled(left),
        left.to_multiset() == right.to_multiset(),
    ensures
        is_settled(right),
{
    lemma_same_elements(left, right);
    left.lemma_multiset_has_no_duplicates();
    right.lemma_multiset_has_no_duplicates_conv();
}

spec fn relayed_of(records: Seq<RecordContent>) -> Seq<RecordContent> {
    records.filter(|r: RecordContent| r.relay)
}

spec fn local_of(records: Seq<RecordContent>) -> Seq<RecordContent> {
    records.filter(|r: RecordContent| !r.relay)
}

proof fn lemma_parts(records: Seq<RecordContent>)
    ensures
        (relayed_of(records) + local_of(records)).to_multiset() == records.to_multiset(),
        forall|x: RecordContent| #[trigger]
            relayed_of(records).contains(x) <==> records.contains(x) && x.relay,
        forall|x: RecordContent| #[trigger]
            local_of(records).contains(x) <==> records.contains(x) && !x.relay,
    decreases records.len(),
{
    broadcast use vstd::seq_lib::group_to_multiset_ensures;

    reveal(Seq::filter);
    let r = relayed_of(records);
    let l = local_of(records);
    if records.len() == 0 {
        assert(r + l =~= records);
    } else {
        let rest = records.drop_last();
        let x = records.last();
        lemma_parts(rest);
        let a = relayed_of(rest);
        let b = local_of(rest);
        assert(records =~= rest.push(x));
        vstd::seq_lib::lemma_multiset_commutative(a, b);
        vstd::seq_lib::lemma_multiset_commutative(r, l);
        assert(records.to_multiset() =~= rest.to_multiset().insert(x));
        if x.relay {
            assert(r == a.push(x) && l == b);
            assert(r.to_multiset() =~= a.to_multiset().insert(x));
        } else {
            assert(r == a && l == b.push(x));
            assert(l.to_multiset() =~= b.to_multiset().insert(x));
        }
        assert((r + l).to_multiset() =~= records.to_multiset());
        assert forall|y: RecordContent| #[trigger] r.contains(y) <==> records.contains(y)
            && y.relay by {
            lemma_push_holds(rest, x, y);
            lemma_push_holds(a, x, y);
            assert(a.contains(y) <==> rest.contains(y) && y.relay);
        }
        assert forall|y: RecordContent| #[trigger] l.contains(y) <==> records.contains(y)
            && !y.relay by {
            lemma_push_holds(rest, x, y);
            lemma_push_holds(b, x, y);
            assert(b.contains(y) <==> rest.contains(y) && !y.relay);
        }
    }
}

proof fn lemma_push_holds<T>(items: Seq<T>, item: T, x: T)
    ensures
        items.push(item).contains(x) <==> items.contains(x) || x == item,
{
    if items.contains(x) {
        let i = choose|i: int| 0 <= i < items.len() && items[i] == x;
        assert(items.push(item)[i] == x);
    }
    assert(items.push(item)[items.len() as int] == item);
    if items.push(item).contains(x) && x != item {
        let i = choose|i: int| 0 <= i < items.push(item).len() && items.push(item)[i] == x;
        assert(items[i] == x);
    }
}

proof fn lemma_settled_prefix(records: Seq<RecordContent>)
    requires
        is_settled(records),
        records.len() > 0,
    ensures
        is_settled(records.drop_last()),
        !records.drop_last().contains(records.last()),
        records.contains(records.last()),
        forall|x: RecordContent| #[trigger]
            records.drop_last().contains(x) ==> records.contains(x),
{
    let rest = records.drop_last();
    assert(records =~= rest.push(records.last()));
    assert forall|x: RecordContent| #[trigger] rest.contains(x) implies records.contains(x) by {
        let i = choose|i: int| 0 <= i < rest.len() && rest[i] == x;
        assert(records[i] == x);
    }
    if rest.contains(records.last()) {
        let i = choose|i: int| 0 <= i < rest.len() && rest[i] == records.last();
        assert(records[i] == records[records.len() - 1]);
    }
    assert(records.contains(records[records.len() - 1]));
}

proof fn lemma_relay_pass_again(sorted: Seq<RecordContent>)
    requires
        is_settled(sorted),
    ensures
        relay_pass(sorted) == relayed_of(sorted),
    decreases sorted.len(),
{
    reveal(Seq::filter);
    if sorted.len() > 0 {
        let rest = sorted.drop_last();
        let last = sorted.last();
        lemma_settled_prefix(sorted);
        lemma_relay_pass_again(rest);
        if last.relay {
            let before = relayed_of(rest);
            lemma_parts(rest);
            lemma_first_such(before, last, by_event(), 0);
            let k = first_such(before, last, by_event(), 0);
            if k < before.len() {
                assert(before.contains(before[k]));
                assert(rest.contains(before[k]));
                assert(sorted.contains(before[k]) && sorted.contains(last));
            }
        }
    } else {
        assert(relay_pass(sorted) =~= relayed_of(sorted));
    }
}

proof fn lemma_absorbed_itself(record: RecordContent)
    requires
        is_tidy(record),
    ensures
        absorbed(record, record) == record,
{
    let relays = record.source_relays;
    assert forall|t: Seq<char>| #![auto] relays.contains(t) <==> (relays + relays).contains(t) by {
        lemma_concat_contains(relays, relays, t);
    }
    lemma_ascending_set(relays, relays + relays);
    assert(absorbed(record, record) =~= record);
}

proof fn lemma_local_pass_again(all: Seq<RecordContent>, prefix: Seq<RecordContent>)
    requires
        is_settled(all),
        is_settled(prefix),
        forall|x: RecordContent| #[trigger] prefix.contains(x) ==> all.contains(x),
    ensures
        local_pass(relayed_of(all), prefix) == relayed_of(all) + local_of(prefix),
    decreases prefix.len(),
{
    reveal(Seq::filter);
    let relayed = relayed_of(all);
    if prefix.len() == 0 {
        assert(relayed + local_of(prefix) =~= relayed);
    } else {
        let rest = prefix.drop_last();
        let last = prefix.last();
        lemma_settled_prefix(prefix);
        lemma_local_pass_again(all, rest);
        lemma_parts(all);
        lemma_parts(rest);
        let before = relayed + local_of(rest);
        assert forall|i: int| 0 <= i < before.len() implies all.contains(#[trigger] before[i]) && (
        before[i] == last ==> last.relay) by {
            if i < relayed.len() {
                assert(relayed.contains(relayed[i]));
            } else {
                let k = i - relayed.len();
                assert(local_of(rest).contains(local_of(rest)[k]));
                assert(rest.contains(local_of(rest)[k]));
            }
        }
        assert(all.contains(last));
        if last.local && last.relay {
            assert(relayed.contains(last));
            let i = choose|i: int| 0 <= i < relayed.len() && relayed[i] == last;
            assert(before[i] == last);
            assert(local_copy(before[i], last));
            lemma_absorbed_itself(last);
            assert(with_local(before, last) =~= before);
        } else if last.local {
            assert forall|i: int| 0 <= i < before.len() implies !(#[trigger] local_copy(
                before[i],
                last,
            )) && !local_twin(before[i], last) by {
                assert(all.contains(before[i]));
            }
            assert(!has_copy(before, last));
            lemma_first_such(before, last, by_twin(), 0);
            let k = first_such(before, last, by_twin(), 0);
            if k < before.len() {
                assert(by_twin()(before[k], last));
                assert(!local_copy(before[k], last) && !local_twin(before[k], last));
            }
            assert(before.push(last) =~= relayed + local_of(prefix));
        } else {
            assert(before =~= relayed + local_of(prefix));
        }
    }
}

/// Merging what was merged changes nothing, where every record names its event and its
/// package.
pub proof fn law_merging_twice_changes_nothing(records: Seq<RecordContent>)
    requires
        forall|i: int| 0 <= i < records.len() ==> is_named(#[trigger] records[i]),
    ensures
        merged(merged(records)) == merged(records),
{
    let sorted = ordered(records);
    let relayed = relay_pass(sorted);
    let passed = local_pass(relayed, sorted);
    let out = merged(records);
    lemma_ordered(records);
    assert forall|k: int| 0 <= k < sorted.len() implies is_named(#[trigger] sorted[k]) && is_tidy(
        sorted[k],
    ) by {
        assert(sorted.contains(sorted[k]));
        let i = choose|i: int|
            0 <= i < records.len() && sorted[k] == normalized(#[trigger] records[i]);
        assert(is_named(records[i]));
    }
    lemma_relay_pass_settles(sorted);
    lemma_local_pass_settles(relayed, sorted);
    lemma_settled(passed);
    lemma_publication_weak_order();
    lemma_sorted_by(passed, publication_lt());
    lemma_settled_reordered(passed, out);
    let clean = out.map_values(|r: RecordContent| normalized(r));
    assert forall|i: int| 0 <= i < out.len() implies #[trigger] clean[i] == out[i] by {
        assert(out.contains(out[i]));
        lemma_ascending_set(out[i].source_relays, out[i].source_relays);
        assert(normalized(out[i]) =~= out[i]);
    }
    assert(clean =~= out);
    let again = ordered(out);
    lemma_identity_weak_order();
    lemma_sorted_by(out, identity_lt());
    lemma_settled_reordered(out, again);
    lemma_relay_pass_again(again);
    lemma_local_pass_again(again, again);
    lemma_parts(again);
    let last = relayed_of(again) + local_of(again);
    lemma_sorted_by(last, publication_lt());
    let lt = publication_lt();
    assert forall|a: RecordContent, b: RecordContent|
        #![trigger out.contains(a), out.contains(b)]
        out.contains(a) && out.contains(b) && !lt(a, b) && !lt(b, a) implies a == b by {
        lemma_publication_rank(a, b, b);
        crate::directory::merge::lemma_text_rank(
            a.key_package_event_id,
            b.key_package_event_id,
            b.key_package_event_id,
        );
    }
    lemma_sorted_unique(out, merged(out), lt);
}

} // verus!
