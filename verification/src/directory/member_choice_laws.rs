//! What holds of the choice of a member's key package, and of whom relays are asked
//! about.

use crate::directory::app_state::{
    local_revision_liveness, signs_now, slot_retired, standing, AppContent,
};
use crate::directory::key_packages::{
    FetchedContent, KeyPackageContent, MetadataContent, ProtocolProfile,
};
use crate::directory::member_cache::{
    kept_at, kept_package, PrewarmContent, MEMBER_PREWARM_CACHE_TTL_MS,
};
use crate::directory::members::{
    accepted, decoded, label_position, member_id, member_package_fault, reuse_of, target_entry,
    target_of, targets_of, DecodedContent, MemberResolutionPurpose, ReuseContent, TargetContent,
};
use crate::directory::members_fetch::{
    by_author, chunked, ids_at, list_queries, list_requests, with_answered_lists, without_route,
    MEMBER_RESOLUTION_AUTHORS_PER_QUERY, RELAY_LIST_EVENTS_PER_AUTHOR,
};
use crate::directory::records::{
    DirectoryFreshness, EventRecordContent, KIND_MARMOT_INBOX_RELAY_LIST, KIND_NIP65_RELAY_LIST,
};
use crate::error::ErrorContent;
use crate::text::{hex_bytes, public_key_hex};
use vstd::prelude::*;

verus! {

/// A key package serves a member exactly where it could be decoded, is of the current
/// profile, has the member's credential, and is within its lifetime, whose ends count.
pub proof fn law_member_package_is_of_the_member_and_current(
    id: Seq<char>,
    metadata: Result<MetadataContent, Seq<char>>,
    now: u64,
)
    ensures
        member_package_fault(id, metadata, now) is None <==> (metadata matches Ok(known)
            && known.protocol_profile == ProtocolProfile::Current
            && known.credential_identity_hex == id && known.not_before <= now
            <= known.not_after),
{
}

/// What decoding gave is told of the very bytes that were decoded.
pub proof fn law_decoding_is_of_the_bytes(table: Seq<DecodedContent>, bytes: Seq<u8>)
    ensures
        decoded(table, bytes) is Ok ==> exists|i: int|
            0 <= i < table.len() && (#[trigger] table[i]).bytes == bytes && table[i].metadata
                == decoded(table, bytes),
        (forall|i: int| 0 <= i < table.len() ==> (#[trigger] table[i]).bytes != bytes) ==> decoded(
            table,
            bytes,
        ) is Err,
    decreases table.len(),
{
    if table.len() > 0 {
        let rest = table.drop_first();
        law_decoding_is_of_the_bytes(rest, bytes);
        if table[0].bytes != bytes {
            if decoded(rest, bytes) is Ok {
                let i = choose|i: int|
                    0 <= i < rest.len() && (#[trigger] rest[i]).bytes == bytes && rest[i].metadata
                        == decoded(rest, bytes);
                assert(table[i + 1] == rest[i]);
            }
            if forall|i: int| 0 <= i < table.len() ==> (#[trigger] table[i]).bytes != bytes {
                assert forall|i: int| 0 <= i < rest.len() implies (#[trigger] rest[i]).bytes
                    != bytes by {
                    assert(table[i + 1] == rest[i]);
                }
            }
        }
    }
}

/// A fetched key package is accepted only where its slot was not removed, it is live, and
/// it serves the member. What is accepted is that key package. To warm up leaves the
/// directory itself as it was, and a refusal for such a reason changes nothing.
pub proof fn law_only_serviceable_packages_are_accepted(
    app: AppContent,
    purpose: MemberResolutionPurpose,
    fetched: FetchedContent,
    table: Seq<DecodedContent>,
    now: u64,
    now_ms: u64,
)
    ensures
        ({
            let (after, result) = accepted(app, purpose, fetched, table, now, now_ms);
            let id = fetched.account_id_hex;
            let sound = !slot_retired(
                app,
                id,
                fetched.key_package_id,
                standing(app, id) is Admitted,
            ) && local_revision_liveness(
                app,
                id,
                fetched.key_package_ref_hex,
                fetched.key_package_event_id,
            ) == Ok::<bool, ErrorContent>(true) && member_package_fault(
                id,
                decoded(table, fetched.key_package.bytes),
                now,
            ) is None;
            &&& result is Ok ==> sound && result->Ok_0 == fetched.key_package
            &&& !sound ==> after == app
            &&& purpose is Prewarm && sound ==> result is Ok
            &&& purpose is Prewarm ==> after.shared == app.shared && after.accounts
                == app.accounts
        }),
{
}

/// What is reused of a member is, in this order: the current key package of the signed-in
/// account that it is, the key package that the directory knows of it, or the one that was
/// fetched ahead; and it serves the member now. A member whose signing is unavailable is
/// told so and nothing of it is reused.
pub proof fn law_reused_package_serves_the_member(
    app: AppContent,
    target: TargetContent,
    table: Seq<DecodedContent>,
    purpose: MemberResolutionPurpose,
    now: u64,
    now_ms: u64,
    package: KeyPackageContent,
)
    requires
        reuse_of(app, target, table, purpose, now, now_ms).1 == Ok::<ReuseContent, ErrorContent>(
            ReuseContent::Reused(package),
        ),
    ensures
        !target.local_signing_unavailable,
        ({
            let local = target.local_label is Some && ({
                let i = label_position(app.accounts, target.local_label->0);
                0 <= i < app.accounts.len() && app.accounts[i].current_key_package == Some(package)
            });
            let known = target_entry(app, target) matches Ok(Some(entry)) && entry.key_package matches Some(
                stored,
            ) && package.bytes == hex_bytes(stored.key_package_hex);
            let kept = kept_package(kept_at(app.prewarmed, now_ms), target.account_id_hex) matches Some(
                fetched,
            ) && package == fetched.key_package;
            local || known || kept
        }),
{
}

/// A member whose signing is unavailable is never resolved from what is known.
pub proof fn law_unavailable_member_is_not_reused(
    app: AppContent,
    target: TargetContent,
    table: Seq<DecodedContent>,
    purpose: MemberResolutionPurpose,
    now: u64,
    now_ms: u64,
)
    ensures
        target.local_signing_unavailable <==> reuse_of(
            app,
            target,
            table,
            purpose,
            now,
            now_ms,
        ).1 == Ok::<ReuseContent, ErrorContent>(ReuseContent::Unavailable),
{
}

/// A key package that was fetched ahead is kept exactly as long as its time lasts.
pub proof fn law_expired_packages_are_dropped(
    entries: Seq<PrewarmContent>,
    now_ms: u64,
    entry: PrewarmContent,
)
    ensures
        kept_at(entries, now_ms).contains(entry) <==> entries.contains(entry) && now_ms
            - entry.inserted_at_ms <= MEMBER_PREWARM_CACHE_TTL_MS,
{
    let keep = |entry: PrewarmContent| crate::directory::member_cache::unexpired(entry, now_ms);
    let kept = kept_at(entries, now_ms);
    assert(kept == entries.filter(keep));
    if entries.contains(entry) && keep(entry) {
        let k = choose|k: int| 0 <= k < entries.len() && entries[k] == entry;
        entries.lemma_filter_contains(keep, k);
    }
    if kept.contains(entry) {
        let k = choose|k: int| 0 <= k < kept.len() && kept[k] == entry;
        entries.lemma_filter_pred(keep, k);
        entries.lemma_filter_contains_rev(keep, entry);
    }
}

/// A name that is the label of an account of this device names that account; any other
/// has to be an identity.
pub proof fn law_label_names_its_account(app: AppContent, name: Seq<char>)
    ensures
        (exists|i: int| 0 <= i < app.accounts.len() && (#[trigger] app.accounts[i]).label == name)
            ==> exists|i: int|
            0 <= i < app.accounts.len() && (#[trigger] app.accounts[i]).label == name && member_id(
                app,
                name,
            ) == Ok::<Seq<char>, ErrorContent>(app.accounts[i].account_id_hex),
        (forall|i: int| 0 <= i < app.accounts.len() ==> (#[trigger] app.accounts[i]).label != name)
            ==> member_id(app, name) == (match public_key_hex(name) {
            Some(id) => Ok::<Seq<char>, ErrorContent>(id),
            None => Err(ErrorContent::InvalidPublicKey),
        }),
{
    lemma_label_position(app.accounts, name);
}

proof fn lemma_label_position(
    accounts: Seq<crate::directory::app_state::AccountContent>,
    name: Seq<char>,
)
    ensures
        0 <= label_position(accounts, name) <= accounts.len(),
        label_position(accounts, name) < accounts.len() ==> accounts[label_position(
            accounts,
            name,
        )].label == name,
        label_position(accounts, name) == accounts.len() ==> forall|i: int|
            0 <= i < accounts.len() ==> (#[trigger] accounts[i]).label != name,
    decreases accounts.len(),
{
    if accounts.len() > 0 && accounts[0].label != name {
        let rest = accounts.drop_first();
        lemma_label_position(rest, name);
        let k = label_position(rest, name);
        if k < rest.len() {
            assert(accounts[k + 1] == rest[k]);
        } else {
            assert forall|i: int| 0 <= i < accounts.len() implies (#[trigger] accounts[i]).label
                != name by {
                if i > 0 {
                    assert(accounts[i] == rest[i - 1]);
                }
            }
        }
    }
}

/// Every name of a roster has a member with its identity.
pub proof fn law_everyone_named_is_a_member(app: AppContent, names: Seq<Seq<char>>, k: int)
    requires
        targets_of(app, names) is Ok,
        0 <= k < names.len(),
    ensures
        member_id(app, names[k]) is Ok,
        exists|i: int|
            0 <= i < targets_of(app, names)->Ok_0.len() && (#[trigger] targets_of(
                app,
                names,
            )->Ok_0[i]).account_id_hex == member_id(app, names[k])->Ok_0,
    decreases names.len(),
{
    let rest = names.drop_last();
    let before = targets_of(app, rest)->Ok_0;
    let all = targets_of(app, names)->Ok_0;
    if k < rest.len() {
        assert(rest[k] == names[k]);
        law_everyone_named_is_a_member(app, rest, k);
        let id = member_id(app, names[k])->Ok_0;
        let i = choose|i: int|
            0 <= i < before.len() && (#[trigger] before[i]).account_id_hex == id;
        assert(all[i] == before[i]);
    } else {
        let id = member_id(app, names.last())->Ok_0;
        if crate::directory::members::is_target(before, id) {
            let i = choose|i: int|
                0 <= i < before.len() && (#[trigger] before[i]).account_id_hex == id;
            assert(all[i].account_id_hex == id);
        } else {
            assert(all[all.len() - 1].account_id_hex == id);
        }
    }
}

/// Every member of a roster was named.
pub proof fn law_every_member_was_named(app: AppContent, names: Seq<Seq<char>>, i: int)
    requires
        targets_of(app, names) is Ok,
        0 <= i < targets_of(app, names)->Ok_0.len(),
    ensures
        exists|k: int|
            0 <= k < names.len() && member_id(app, #[trigger] names[k]) == Ok::<
                Seq<char>,
                ErrorContent,
            >(targets_of(app, names)->Ok_0[i].account_id_hex),
    decreases names.len(),
{
    if names.len() > 0 {
        let rest = names.drop_last();
        let before = targets_of(app, rest)->Ok_0;
        let all = targets_of(app, names)->Ok_0;
        if i < before.len() {
            law_every_member_was_named(app, rest, i);
            let k = choose|k: int|
                0 <= k < rest.len() && member_id(app, #[trigger] rest[k]) == Ok::<
                    Seq<char>,
                    ErrorContent,
                >(before[i].account_id_hex);
            assert(names[k] == rest[k]);
            assert(all[i] == before[i]);
        } else {
            assert(member_id(app, names[names.len() - 1]) == Ok::<Seq<char>, ErrorContent>(
                all[i].account_id_hex,
            ));
        }
    }
}

/// A member is told of under a local label exactly where it is a signed-in account of this
/// device, and its signing is unavailable only where it would sign and is not admitted.
pub proof fn law_target_tells_how_it_signs(app: AppContent, name: Seq<char>, id: Seq<char>)
    requires
        target_of(app, name, id) is Ok,
    ensures
        ({
            let target = target_of(app, name, id)->Ok_0;
            &&& target.account_id_hex == id
            &&& target.local_label is Some ==> exists|i: int|
                0 <= i < app.accounts.len() && signs_now(#[trigger] app.accounts[i])
                    && target.local_label == Some(app.accounts[i].label)
            &&& target.local_signing_unavailable ==> standing(app, id) is Refused
        }),
{
    let account = crate::directory::members::member_account(app, name, id);
    if let Some(i) = account {
        if signs_now(app.accounts[i]) {
            assert(signs_now(app.accounts[i]));
        }
    }
}

proof fn lemma_chunks_join(indices: Seq<int>, size: nat, i: int)
    requires
        size > 0,
    ensures
        indices.contains(i) <==> exists|c: int|
            0 <= c < chunked(indices, size).len() && (#[trigger] chunked(
                indices,
                size,
            )[c]).contains(i),
        forall|c: int|
            0 <= c < chunked(indices, size).len() ==> 0 < (#[trigger] chunked(
                indices,
                size,
            )[c]).len() <= size,
    decreases indices.len(),
{
    if indices.len() > 0 {
        let n = if indices.len() < size {
            indices.len() as int
        } else {
            size as int
        };
        let first = indices.take(n);
        let rest = indices.skip(n);
        let all = chunked(indices, size);
        let more = chunked(rest, size);
        lemma_chunks_join(rest, size, i);
        assert(first + rest =~= indices);
        crate::directory::merge::lemma_concat_contains(first, rest, i);
        assert(all[0] == first);
        assert forall|c: int| 0 <= c < more.len() implies all[c + 1] == #[trigger] more[c] by {}
        assert forall|c: int| 0 <= c < all.len() implies 0 < (#[trigger] all[c]).len() <= size by {
            if c > 0 {
                assert(all[c] == more[c - 1]);
            }
        }
        if rest.contains(i) {
            let c = choose|c: int| 0 <= c < more.len() && (#[trigger] more[c]).contains(i);
            assert(all[c + 1].contains(i));
        }
        if exists|c: int| 0 <= c < all.len() && (#[trigger] all[c]).contains(i) {
            let c = choose|c: int| 0 <= c < all.len() && (#[trigger] all[c]).contains(i);
            if c > 0 {
                assert(more[c - 1].contains(i));
            }
        }
    }
}

/// Relays are asked for the relay lists of exactly those unresolved members that no route
/// is known of, wherever there is a relay to ask. Every query names the accounts of its
/// members, and both lists are asked for.
pub proof fn law_routes_are_looked_up_where_none_is_known(
    app: AppContent,
    targets: Seq<TargetContent>,
    unresolved: Seq<int>,
    i: int,
)
    ensures
        ({
            let requests = list_requests(app, targets, unresolved);
            let relays = app.config.directory_relay_urls.len() > 0 || app.config.relay_urls.len()
                > 0;
            &&& (exists|r: int|
                0 <= r < requests.len() && (#[trigger] requests[r]).indices.contains(i))
                <==> relays && unresolved.contains(i) && targets[i].relay_lists.nip65.relays.len()
                == 0
            &&& forall|r: int|
                0 <= r < requests.len() ==> {
                    let request = #[trigger] requests[r];
                    &&& 0 < request.indices.len() <= MEMBER_RESOLUTION_AUTHORS_PER_QUERY
                    &&& request.queries.len() == 2
                    &&& request.queries[0].kind == KIND_NIP65_RELAY_LIST
                    &&& request.queries[1].kind == KIND_MARMOT_INBOX_RELAY_LIST
                    &&& forall|q: int|
                        0 <= q < 2 ==> (#[trigger] request.queries[q]).authors == ids_at(
                            targets,
                            request.indices,
                        ) && request.queries[q].limit == request.indices.len()
                            * RELAY_LIST_EVENTS_PER_AUTHOR
                }
        }),
{
    let keep = |i: int| targets[i].relay_lists.nip65.relays.len() == 0;
    let open = without_route(targets, unresolved);
    let size = MEMBER_RESOLUTION_AUTHORS_PER_QUERY as nat;
    let requests = list_requests(app, targets, unresolved);
    let chunks = chunked(open, size);
    assert(open == unresolved.filter(keep));
    if unresolved.contains(i) && keep(i) {
        let k = choose|k: int| 0 <= k < unresolved.len() && unresolved[k] == i;
        unresolved.lemma_filter_contains(keep, k);
    }
    if open.contains(i) {
        let k = choose|k: int| 0 <= k < open.len() && open[k] == i;
        unresolved.lemma_filter_pred(keep, k);
        unresolved.lemma_filter_contains_rev(keep, i);
    }
    lemma_chunks_join(open, size, i);
    if requests.len() > 0 {
        assert(requests.len() == chunks.len());
        assert forall|r: int| 0 <= r < requests.len() implies (#[trigger] requests[r]).indices
            == chunks[r] && requests[r].queries == list_queries(ids_at(targets, chunks[r])) by {}
    }
    if open.contains(i) && (app.config.directory_relay_urls.len() > 0 || app.config.relay_urls.len()
        > 0) {
        let c = choose|c: int| 0 <= c < chunks.len() && (#[trigger] chunks[c]).contains(i);
        assert(requests[c].indices == chunks[c]);
    }
    if exists|r: int| 0 <= r < requests.len() && (#[trigger] requests[r]).indices.contains(i) {
        let r = choose|r: int|
            0 <= r < requests.len() && (#[trigger] requests[r]).indices.contains(i);
        assert(chunks[r].contains(i));
    }
    assert forall|r: int| 0 <= r < requests.len() implies ({
        let request = #[trigger] requests[r];
        &&& 0 < request.indices.len() <= MEMBER_RESOLUTION_AUTHORS_PER_QUERY
        &&& request.queries.len() == 2
        &&& request.queries[0].kind == KIND_NIP65_RELAY_LIST
        &&& request.queries[1].kind == KIND_MARMOT_INBOX_RELAY_LIST
        &&& forall|q: int|
            0 <= q < 2 ==> (#[trigger] request.queries[q]).authors == ids_at(
                targets,
                request.indices,
            ) && request.queries[q].limit == request.indices.len() * RELAY_LIST_EVENTS_PER_AUTHOR
    }) by {
        assert(0 < chunks[r].len() <= size);
        assert(chunks[r].len() * RELAY_LIST_EVENTS_PER_AUTHOR <= usize::MAX);
    }
}

/// Of an answer, exactly the events that a member published count for it.
pub proof fn law_only_own_events_count(
    records: Seq<EventRecordContent>,
    author: Seq<char>,
    record: EventRecordContent,
)
    ensures
        by_author(records, author).contains(record) <==> records.contains(record)
            && record.event.pubkey == author,
{
    let keep = |r: EventRecordContent| r.event.pubkey == author;
    let own = by_author(records, author);
    assert(own == records.filter(keep));
    if records.contains(record) && keep(record) {
        let k = choose|k: int| 0 <= k < records.len() && records[k] == record;
        records.lemma_filter_contains(keep, k);
    }
    if own.contains(record) {
        let k = choose|k: int| 0 <= k < own.len() && own[k] == record;
        records.lemma_filter_pred(keep, k);
        records.lemma_filter_contains_rev(keep, record);
    }
}

/// An answer about relay lists changes the relay lists of the members that were asked
/// about and nothing else.
pub proof fn law_list_answer_changes_only_routes(
    targets: Seq<TargetContent>,
    indices: Seq<int>,
    records: Seq<EventRecordContent>,
    asked: Seq<Seq<char>>,
    freshness: DirectoryFreshness,
    i: int,
)
    requires
        0 <= i < targets.len(),
        forall|k: int| 0 <= k < indices.len() ==> 0 <= #[trigger] indices[k] < targets.len(),
    ensures
        ({
            let after = with_answered_lists(targets, indices, records, asked, freshness);
            &&& after.len() == targets.len()
            &&& after[i] == (TargetContent { relay_lists: after[i].relay_lists, ..targets[i] })
            &&& !indices.contains(i) ==> after[i] == targets[i]
        }),
    decreases indices.len(),
{
    if indices.len() > 0 {
        let rest = indices.drop_last();
        assert forall|k: int| 0 <= k < rest.len() implies 0 <= #[trigger] rest[k]
            < targets.len() by {
            assert(rest[k] == indices[k]);
        }
        law_list_answer_changes_only_routes(targets, rest, records, asked, freshness, i);
        assert(0 <= indices[indices.len() - 1] < targets.len());
        if rest.contains(i) {
            let k = choose|k: int| 0 <= k < rest.len() && rest[k] == i;
            assert(indices[k] == i);
        }
    }
}

} // verus!
