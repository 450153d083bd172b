//! What a merged key package holds: all that the records of one package knew, and
//! nothing that none of them knew.

use crate::directory::merge::{
    absorbed, by_event, by_twin, first_such, has_copy, joined, lemma_concat_contains,
    lemma_first_such, lemma_publication_rank, local_copy, local_pass, merged, normalized,
    publication_lt, relay_pass, with_local, RecordContent,
};
use crate::directory::merge_again::{lemma_ordered, lemma_publication_weak_order, ordered};
use crate::order::{lemma_ascending_set_exists, lemma_same_elements, lemma_sorted_by};
use vstd::prelude::*;

verus! {

/// Whether two records can be of one package: they name the same event, the same
/// package, or the same slot.
pub open spec fn are_kin(a: RecordContent, b: RecordContent) -> bool {
    ||| a.key_package_event_id.len() > 0 && a.key_package_event_id == b.key_package_event_id
    ||| a.key_package_ref_hex.len() > 0 && a.key_package_ref_hex == b.key_package_ref_hex
    ||| a.key_package_id == b.key_package_id
}

/// Whether a record has all that another one knows: it is no older and no smaller,
/// it is known wherever the other is, and it has a name wherever the other has one.
pub open spec fn covers(record: RecordContent, other: RecordContent) -> bool {
    &&& record.published_at >= other.published_at
    &&& record.key_package_bytes >= other.key_package_bytes
    &&& other.local ==> record.local
    &&& other.relay ==> record.relay
    &&& other.account_label is Some ==> record.account_label is Some
    &&& other.key_package_event_id.len() > 0 ==> record.key_package_event_id.len() > 0
    &&& other.key_package_ref_hex.len() > 0 ==> record.key_package_ref_hex.len() > 0
    &&& forall|relay: Seq<char>| #[trigger]
        other.source_relays.contains(relay) ==> record.source_relays.contains(relay)
}

spec fn holds(record: RecordContent, other: RecordContent) -> bool {
    &&& are_kin(record, other)
    &&& covers(record, other)
    &&& other.relay && other.key_package_event_id.len() > 0 ==> record.key_package_event_id
        == other.key_package_event_id
}

spec fn held(records: Seq<RecordContent>, other: RecordContent) -> bool {
    exists|k: int| 0 <= k < records.len() && holds(#[trigger] records[k], other)
}

/// Whether some record that can be of the same package passes a test.
pub open spec fn has_source(
    records: Seq<RecordContent>,
    record: RecordContent,
    test: spec_fn(RecordContent) -> bool,
) -> bool {
    exists|i: int|
        0 <= i < records.len() && are_kin(record, #[trigger] records[i]) && test(records[i])
}

spec fn is_drawn(records: Seq<RecordContent>, record: RecordContent) -> bool {
    &&& has_source(records, record, |r: RecordContent| r.published_at == record.published_at)
    &&& has_source(
        records,
        record,
        |r: RecordContent| r.key_package_bytes == record.key_package_bytes,
    )
    &&& has_source(
        records,
        record,
        |r: RecordContent| r.key_package_event_id == record.key_package_event_id,
    )
    &&& has_source(
        records,
        record,
        |r: RecordContent| r.key_package_ref_hex == record.key_package_ref_hex,
    )
    &&& has_source(records, record, |r: RecordContent| r.account_label == record.account_label)
    &&& has_source(
        records,
        record,
        |r: RecordContent|
            r.key_package_id == record.key_package_id && r.account_id_hex == record.account_id_hex,
    )
    &&& record.local ==> has_source(records, record, |r: RecordContent| r.local)
    &&& record.relay ==> has_source(records, record, |r: RecordContent| r.relay)
    &&& forall|relay: Seq<char>| #[trigger]
        record.source_relays.contains(relay) ==> has_source(
            records,
            record,
            |r: RecordContent| r.source_relays.contains(relay),
        )
}

spec fn all_drawn(records: Seq<RecordContent>, out: Seq<RecordContent>) -> bool {
    forall|k: int| 0 <= k < out.len() ==> is_drawn(records, #[trigger] out[k])
}

proof fn lemma_source(
    records: Seq<RecordContent>,
    from: RecordContent,
    record: RecordContent,
    given: spec_fn(RecordContent) -> bool,
    test: spec_fn(RecordContent) -> bool,
)
    requires
        has_source(records, from, given),
        forall|r: RecordContent| #[trigger] are_kin(from, r) ==> are_kin(record, r),
        forall|r: RecordContent| #[trigger] given(r) ==> test(r),
    ensures
        has_source(records, record, test),
{
    let i = choose|i: int|
        0 <= i < records.len() && are_kin(from, #[trigger] records[i]) && given(records[i]);
    assert(are_kin(record, records[i]) && test(records[i]));
}

proof fn lemma_own_source(
    records: Seq<RecordContent>,
    record: RecordContent,
    own: RecordContent,
    test: spec_fn(RecordContent) -> bool,
)
    requires
        records.contains(own),
        are_kin(record, own),
        test(own),
    ensures
        has_source(records, record, test),
{
    let i = choose|i: int| 0 <= i < records.len() && records[i] == own;
    assert(are_kin(record, records[i]) && test(records[i]));
}

proof fn lemma_absorbed_grows(existing: RecordContent, record: RecordContent, other: RecordContent)
    requires
        are_kin(existing, record),
    ensures
        are_kin(absorbed(existing, record), record),
        covers(absorbed(existing, record), record),
        covers(absorbed(existing, record), existing),
        are_kin(existing, other) ==> are_kin(absorbed(existing, record), other),
        holds(existing, other) ==> holds(absorbed(existing, record), other),
{
    let all = existing.source_relays + record.source_relays;
    lemma_ascending_set_exists(all);
    let out = absorbed(existing, record);
    assert forall|relay: Seq<char>|
        existing.source_relays.contains(relay) || record.source_relays.contains(
            relay,
        ) implies #[trigger] out.source_relays.contains(relay) by {
        lemma_concat_contains(existing.source_relays, record.source_relays, relay);
    }
}

proof fn lemma_absorbed_is_drawn(
    records: Seq<RecordContent>,
    existing: RecordContent,
    record: RecordContent,
)
    requires
        is_drawn(records, existing),
        records.contains(record),
        are_kin(existing, record),
    ensures
        is_drawn(records, absorbed(existing, record)),
{
    let out = absorbed(existing, record);
    lemma_absorbed_grows(existing, record, record);
    assert forall|r: RecordContent| #[trigger] are_kin(existing, r) implies are_kin(out, r) by {
        lemma_absorbed_grows(existing, record, r);
    }
    let published = |r: RecordContent| r.published_at == out.published_at;
    if out.published_at == existing.published_at {
        lemma_source(
            records,
            existing,
            out,
            |r: RecordContent| r.published_at == existing.published_at,
            published,
        );
    } else {
        lemma_own_source(records, out, record, published);
    }
    let bytes = |r: RecordContent| r.key_package_bytes == out.key_package_bytes;
    if out.key_package_bytes == existing.key_package_bytes {
        lemma_source(
            records,
            existing,
            out,
            |r: RecordContent| r.key_package_bytes == existing.key_package_bytes,
            bytes,
        );
    } else {
        lemma_own_source(records, out, record, bytes);
    }
    let event = |r: RecordContent| r.key_package_event_id == out.key_package_event_id;
    if out.key_package_event_id == existing.key_package_event_id {
        lemma_source(
            records,
            existing,
            out,
            |r: RecordContent| r.key_package_event_id == existing.key_package_event_id,
            event,
        );
    } else {
        lemma_own_source(records, out, record, event);
    }
    let named = |r: RecordContent| r.key_package_ref_hex == out.key_package_ref_hex;
    if out.key_package_ref_hex == existing.key_package_ref_hex {
        lemma_source(
            records,
            existing,
            out,
            |r: RecordContent| r.key_package_ref_hex == existing.key_package_ref_hex,
            named,
        );
    } else {
        lemma_own_source(records, out, record, named);
    }
    let label = |r: RecordContent| r.account_label == out.account_label;
    if out.account_label == existing.account_label {
        lemma_source(
            records,
            existing,
            out,
            |r: RecordContent| r.account_label == existing.account_label,
            label,
        );
    } else {
        lemma_own_source(records, out, record, label);
    }
    lemma_source(
        records,
        existing,
        out,
        |r: RecordContent|
            r.key_package_id == existing.key_package_id && r.account_id_hex
                == existing.account_id_hex,
        |r: RecordContent|
            r.key_package_id == out.key_package_id && r.account_id_hex == out.account_id_hex,
    );
    let local = |r: RecordContent| r.local;
    if record.local {
        lemma_own_source(records, out, record, local);
    } else if existing.local {
        lemma_source(records, existing, out, |r: RecordContent| r.local, local);
    }
    let relayed = |r: RecordContent| r.relay;
    if record.relay {
        lemma_own_source(records, out, record, relayed);
    } else if existing.relay {
        lemma_source(records, existing, out, |r: RecordContent| r.relay, relayed);
    }
    lemma_ascending_set_exists(existing.source_relays + record.source_relays);
    assert forall|relay: Seq<char>| #[trigger]
        out.source_relays.contains(relay) implies has_source(
        records,
        out,
        |r: RecordContent| r.source_relays.contains(relay),
    ) by {
        lemma_concat_contains(existing.source_relays, record.source_relays, relay);
        let at = |r: RecordContent| r.source_relays.contains(relay);
        if record.source_relays.contains(relay) {
            lemma_own_source(records, out, record, at);
        } else {
            assert(existing.source_relays.contains(relay));
            lemma_source(
                records,
                existing,
                out,
                |r: RecordContent| r.source_relays.contains(relay),
                at,
            );
        }
    }
}

proof fn lemma_input_is_drawn(records: Seq<RecordContent>, record: RecordContent)
    requires
        records.contains(record),
    ensures
        is_drawn(records, record),
{
    lemma_own_source(
        records,
        record,
        record,
        |r: RecordContent| r.published_at == record.published_at,
    );
    lemma_own_source(
        records,
        record,
        record,
        |r: RecordContent| r.key_package_bytes == record.key_package_bytes,
    );
    lemma_own_source(
        records,
        record,
        record,
        |r: RecordContent| r.key_package_event_id == record.key_package_event_id,
    );
    lemma_own_source(
        records,
        record,
        record,
        |r: RecordContent| r.key_package_ref_hex == record.key_package_ref_hex,
    );
    lemma_own_source(
        records,
        record,
        record,
        |r: RecordContent| r.account_label == record.account_label,
    );
    lemma_own_source(
        records,
        record,
        record,
        |r: RecordContent|
            r.key_package_id == record.key_package_id && r.account_id_hex == record.account_id_hex,
    );
    if record.local {
        lemma_own_source(records, record, record, |r: RecordContent| r.local);
    }
    if record.relay {
        lemma_own_source(records, record, record, |r: RecordContent| r.relay);
    }
    assert forall|relay: Seq<char>| #[trigger]
        record.source_relays.contains(relay) implies has_source(
        records,
        record,
        |r: RecordContent| r.source_relays.contains(relay),
    ) by {
        lemma_own_source(
            records,
            record,
            record,
            |r: RecordContent| r.source_relays.contains(relay),
        );
    }
}

proof fn lemma_joined_holds(
    records: Seq<RecordContent>,
    out: Seq<RecordContent>,
    record: RecordContent,
    chosen: spec_fn(RecordContent, RecordContent) -> bool,
)
    requires
        all_drawn(records, out),
        records.contains(record),
        forall|e: RecordContent| #[trigger] chosen(e, record) ==> are_kin(e, record),
    ensures
        all_drawn(records, joined(out, record, chosen)),
        forall|other: RecordContent| #[trigger]
            held(out, other) ==> held(joined(out, record, chosen), other),
        exists|k: int|
            0 <= k < joined(out, record, chosen).len() && are_kin(
                #[trigger] joined(out, record, chosen)[k],
                record,
            ) && covers(joined(out, record, chosen)[k], record) && (joined(out, record, chosen)[k]
                == record || (0 <= k < out.len() && chosen(out[k], record) && joined(
                out,
                record,
                chosen,
            )[k] == absorbed(out[k], record))),
{
    let after = joined(out, record, chosen);
    let i = first_such(out, record, chosen, 0);
    lemma_first_such(out, record, chosen, 0);
    if i < out.len() {
        assert(chosen(out[i], record));
        lemma_absorbed_grows(out[i], record, record);
        lemma_absorbed_is_drawn(records, out[i], record);
        assert(are_kin(after[i], record) && covers(after[i], record));
    } else {
        lemma_input_is_drawn(records, record);
        assert(after[out.len() as int] == record);
        assert(are_kin(after[out.len() as int], record) && covers(
            after[out.len() as int],
            record,
        ));
    }
    assert forall|k: int| 0 <= k < after.len() implies is_drawn(records, #[trigger] after[k]) by {
        if k < out.len() && k != i {
            assert(after[k] == out[k]);
        }
    }
    assert forall|other: RecordContent| #[trigger] held(out, other) implies held(after, other) by {
        let k = choose|k: int| 0 <= k < out.len() && holds(#[trigger] out[k], other);
        if k == i {
            lemma_absorbed_grows(out[i], record, other);
        } else {
            assert(after[k] == out[k]);
        }
        assert(holds(after[k], other));
    }
}

proof fn lemma_with_local_holds(
    records: Seq<RecordContent>,
    out: Seq<RecordContent>,
    record: RecordContent,
)
    requires
        all_drawn(records, out),
        records.contains(record),
    ensures
        all_drawn(records, with_local(out, record)),
        forall|other: RecordContent| #[trigger]
            held(out, other) ==> held(with_local(out, record), other),
        !record.relay ==> held(with_local(out, record), record),
{
    let after = with_local(out, record);
    if has_copy(out, record) {
        assert forall|k: int| 0 <= k < after.len() implies is_drawn(records, #[trigger] after[k]) by {
            if local_copy(out[k], record) {
                lemma_absorbed_is_drawn(records, out[k], record);
            } else {
                assert(after[k] == out[k]);
            }
        }
        assert forall|other: RecordContent| #[trigger] held(out, other) implies held(
            after,
            other,
        ) by {
            let k = choose|k: int| 0 <= k < out.len() && holds(#[trigger] out[k], other);
            if local_copy(out[k], record) {
                lemma_absorbed_grows(out[k], record, other);
            }
            assert(holds(after[k], other));
        }
        let k = choose|k: int| 0 <= k < out.len() && #[trigger] local_copy(out[k], record);
        lemma_absorbed_grows(out[k], record, record);
        assert(after[k] == absorbed(out[k], record));
        if !record.relay {
            assert(holds(after[k], record));
        }
    } else {
        lemma_joined_holds(records, out, record, by_twin());
        let k = choose|k: int|
            0 <= k < joined(out, record, by_twin()).len() && are_kin(
                #[trigger] joined(out, record, by_twin())[k],
                record,
            ) && covers(joined(out, record, by_twin())[k], record);
        if !record.relay {
            assert(holds(after[k], record));
        }
    }
}

proof fn lemma_relay_pass_holds(records: Seq<RecordContent>, sorted: Seq<RecordContent>)
    requires
        forall|i: int| 0 <= i < sorted.len() ==> records.contains(#[trigger] sorted[i]),
    ensures
        all_drawn(records, relay_pass(sorted)),
        forall|i: int|
            0 <= i < sorted.len() && (#[trigger] sorted[i]).relay ==> held(
                relay_pass(sorted),
                sorted[i],
            ),
    decreases sorted.len(),
{
    if sorted.len() > 0 {
        let rest = sorted.drop_last();
        let last = sorted.last();
        assert(records.contains(sorted[sorted.len() - 1]));
        assert forall|i: int| 0 <= i < rest.len() implies records.contains(#[trigger] rest[i]) by {
            assert(rest[i] == sorted[i]);
        }
        lemma_relay_pass_holds(records, rest);
        let before = relay_pass(rest);
        let after = relay_pass(sorted);
        if last.relay {
            lemma_joined_holds(records, before, last, by_event());
            let k = choose|k: int|
                0 <= k < after.len() && are_kin(#[trigger] after[k], last) && covers(
                    after[k],
                    last,
                ) && (after[k] == last || (0 <= k < before.len() && by_event()(before[k], last)
                    && after[k] == absorbed(before[k], last)));
            assert(holds(after[k], last));
            assert(held(after, last));
        }
        assert forall|i: int| 0 <= i < sorted.len() && (#[trigger] sorted[i]).relay implies held(
            after,
            sorted[i],
        ) by {
            if i < rest.len() {
                assert(rest[i] == sorted[i]);
                assert(held(before, rest[i]));
            }
        }
    }
}

proof fn lemma_local_pass_holds(
    records: Seq<RecordContent>,
    out: Seq<RecordContent>,
    sorted: Seq<RecordContent>,
)
    requires
        all_drawn(records, out),
        forall|i: int| 0 <= i < sorted.len() ==> records.contains(#[trigger] sorted[i]),
    ensures
        all_drawn(records, local_pass(out, sorted)),
        forall|other: RecordContent| #[trigger]
            held(out, other) ==> held(local_pass(out, sorted), other),
        forall|i: int|
            0 <= i < sorted.len() && (#[trigger] sorted[i]).local && !sorted[i].relay ==> held(
                local_pass(out, sorted),
                sorted[i],
            ),
    decreases sorted.len(),
{
    if sorted.len() > 0 {
        let rest = sorted.drop_last();
        let last = sorted.last();
        assert(records.contains(sorted[sorted.len() - 1]));
        assert forall|i: int| 0 <= i < rest.len() implies records.contains(#[trigger] rest[i]) by {
            assert(rest[i] == sorted[i]);
        }
        lemma_local_pass_holds(records, out, rest);
        let before = local_pass(out, rest);
        let after = local_pass(out, sorted);
        if last.local {
            lemma_with_local_holds(records, before, last);
        }
        assert forall|i: int|
            0 <= i < sorted.len() && (#[trigger] sorted[i]).local && !sorted[i].relay implies held(
            after,
            sorted[i],
        ) by {
            if i < rest.len() {
                assert(rest[i] == sorted[i]);
                assert(held(before, rest[i]));
            }
        }
    }
}

proof fn lemma_merged_holds(records: Seq<RecordContent>)
    ensures
        all_drawn(ordered(records), merged(records)),
        forall|i: int|
            0 <= i < ordered(records).len() && ((#[trigger] ordered(records)[i]).relay || ordered(
                records,
            )[i].local) ==> held(merged(records), ordered(records)[i]),
{
    let sorted = ordered(records);
    let relayed = relay_pass(sorted);
    let passed = local_pass(relayed, sorted);
    let out = merged(records);
    assert forall|i: int| 0 <= i < sorted.len() implies sorted.contains(#[trigger] sorted[i]) by {}
    lemma_relay_pass_holds(sorted, sorted);
    lemma_local_pass_holds(sorted, relayed, sorted);
    lemma_publication_weak_order();
    lemma_sorted_by(passed, publication_lt());
    lemma_same_elements(out, passed);
    assert forall|k: int| 0 <= k < out.len() implies is_drawn(sorted, #[trigger] out[k]) by {
        assert(out.contains(out[k]));
        let j = choose|j: int| 0 <= j < passed.len() && passed[j] == out[k];
        assert(is_drawn(sorted, passed[j]));
    }
    assert forall|i: int|
        0 <= i < sorted.len() && ((#[trigger] sorted[i]).relay || sorted[i].local) implies held(
        out,
        sorted[i],
    ) by {
        assert(held(passed, sorted[i])) by {
            if sorted[i].relay {
                assert(held(relayed, sorted[i]));
            }
        }
        let k = choose|k: int| 0 <= k < passed.len() && holds(#[trigger] passed[k], sorted[i]);
        assert(passed.contains(passed[k]));
        assert(out.contains(passed[k]));
        let m = choose|m: int| 0 <= m < out.len() && out[m] == passed[k];
        assert(holds(out[m], sorted[i]));
    }
}

/// Nothing that a relay or the device knows of a package is lost: every such record
/// has a merged record of its package that is published no earlier than it, is no
/// smaller, is known wherever it is, and lists every relay that it lists. A relay
/// record that names an event has the merged record of that very event.
pub proof fn law_merged_record_covers_its_sources(records: Seq<RecordContent>, i: int)
    requires
        0 <= i < records.len(),
        records[i].relay || records[i].local,
    ensures
        exists|k: int|
            0 <= k < merged(records).len() && are_kin(#[trigger] merged(records)[k], records[i])
                && covers(merged(records)[k], records[i]) && (records[i].relay
                && records[i].key_package_event_id.len() > 0
                ==> merged(records)[k].key_package_event_id == records[i].key_package_event_id),
{
    let sorted = ordered(records);
    let out = merged(records);
    lemma_ordered(records);
    lemma_merged_holds(records);
    assert(records.contains(records[i]));
    assert(sorted.contains(normalized(records[i])));
    let j = choose|j: int| 0 <= j < sorted.len() && sorted[j] == normalized(records[i]);
    assert(held(out, sorted[j]));
    let k = choose|k: int| 0 <= k < out.len() && holds(#[trigger] out[k], sorted[j]);
    lemma_ascending_set_exists(records[i].source_relays);
    assert forall|relay: Seq<char>| #[trigger]
        records[i].source_relays.contains(relay) implies out[k].source_relays.contains(relay) by {
        assert(sorted[j].source_relays.contains(relay));
    }
    assert(are_kin(out[k], records[i]) && covers(out[k], records[i]));
}

proof fn lemma_source_of_ordered(
    records: Seq<RecordContent>,
    record: RecordContent,
    given: spec_fn(RecordContent) -> bool,
    test: spec_fn(RecordContent) -> bool,
)
    requires
        has_source(ordered(records), record, given),
        forall|r: RecordContent| given(#[trigger] normalized(r)) ==> test(r),
    ensures
        has_source(records, record, test),
{
    let sorted = ordered(records);
    lemma_ordered(records);
    let j = choose|j: int|
        0 <= j < sorted.len() && are_kin(record, #[trigger] sorted[j]) && given(sorted[j]);
    assert(sorted.contains(sorted[j]));
    let i = choose|i: int|
        0 <= i < records.len() && sorted[j] == normalized(#[trigger] records[i]);
    assert(are_kin(record, records[i]) && test(records[i]));
}

/// A merged record says nothing that no record of its package said: its time, its
/// size, its names, its label and each of its relays are those of such a record, and
/// it is known to the device or to relays only where such a record is.
pub proof fn law_merged_record_is_drawn_from_its_sources(records: Seq<RecordContent>, k: int)
    requires
        0 <= k < merged(records).len(),
    ensures
        ({
            let record = merged(records)[k];
            &&& has_source(
                records,
                record,
                |r: RecordContent| r.published_at == record.published_at,
            )
            &&& has_source(
                records,
                record,
                |r: RecordContent| r.key_package_bytes == record.key_package_bytes,
            )
            &&& has_source(
                records,
                record,
                |r: RecordContent| r.key_package_event_id == record.key_package_event_id,
            )
            &&& has_source(
                records,
                record,
                |r: RecordContent| r.key_package_ref_hex == record.key_package_ref_hex,
            )
            &&& has_source(
                records,
                record,
                |r: RecordContent| r.account_label == record.account_label,
            )
            &&& has_source(
                records,
                record,
                |r: RecordContent|
                    r.key_package_id == record.key_package_id && r.account_id_hex
                        == record.account_id_hex,
            )
            &&& record.local ==> has_source(records, record, |r: RecordContent| r.local)
            &&& record.relay ==> has_source(records, record, |r: RecordContent| r.relay)
            &&& forall|relay: Seq<char>| #[trigger]
                record.source_relays.contains(relay) ==> has_source(
                    records,
                    record,
                    |r: RecordContent| r.source_relays.contains(relay),
                )
        }),
{
    let record = merged(records)[k];
    lemma_merged_holds(records);
    assert(is_drawn(ordered(records), record));
    let published = |r: RecordContent| r.published_at == record.published_at;
    lemma_source_of_ordered(records, record, published, published);
    let bytes = |r: RecordContent| r.key_package_bytes == record.key_package_bytes;
    lemma_source_of_ordered(records, record, bytes, bytes);
    let event = |r: RecordContent| r.key_package_event_id == record.key_package_event_id;
    lemma_source_of_ordered(records, record, event, event);
    let named = |r: RecordContent| r.key_package_ref_hex == record.key_package_ref_hex;
    lemma_source_of_ordered(records, record, named, named);
    let label = |r: RecordContent| r.account_label == record.account_label;
    lemma_source_of_ordered(records, record, label, label);
    let slot = |r: RecordContent|
        r.key_package_id == record.key_package_id && r.account_id_hex == record.account_id_hex;
    lemma_source_of_ordered(records, record, slot, slot);
    let local = |r: RecordContent| r.local;
    if record.local {
        lemma_source_of_ordered(records, record, local, local);
    }
    let relayed = |r: RecordContent| r.relay;
    if record.relay {
        lemma_source_of_ordered(records, record, relayed, relayed);
    }
    assert forall|relay: Seq<char>| #[trigger]
        record.source_relays.contains(relay) implies has_source(
        records,
        record,
        |r: RecordContent| r.source_relays.contains(relay),
    ) by {
        let at = |r: RecordContent| r.source_relays.contains(relay);
        assert forall|r: RecordContent| at(#[trigger] normalized(r)) implies at(r) by {
            lemma_ascending_set_exists(r.source_relays);
        }
        lemma_source_of_ordered(records, record, at, at);
    }
}

/// Merged records are listed newest first.
pub proof fn law_merged_records_are_newest_first(records: Seq<RecordContent>, i: int, j: int)
    requires
        0 <= i < j < merged(records).len(),
    ensures
        merged(records)[i].published_at >= merged(records)[j].published_at,
        merged(records)[i].published_at == merged(records)[j].published_at
            ==> merged(records)[i].key_package_event_id == merged(records)[j].key_package_event_id
            || crate::order::text_lt(
            merged(records)[i].key_package_event_id,
            merged(records)[j].key_package_event_id,
        ),
{
    let sorted = ordered(records);
    let lt = publication_lt();
    lemma_publication_weak_order();
    lemma_sorted_by(local_pass(relay_pass(sorted), sorted), lt);
    let a = merged(records)[i];
    let b = merged(records)[j];
    assert(!lt(b, a));
    lemma_publication_rank(a, b, b);
    crate::order::lemma_text_lt_total(a.key_package_event_id, b.key_package_event_id);
}

} // verus!
