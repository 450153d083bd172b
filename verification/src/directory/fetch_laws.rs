//! What a fetch answers: what relays delivered where they delivered something, and what
//! is known where they were silent.

use crate::directory::app_entry::{entry_named, relay_lists_named, Gate};
use crate::directory::app_fetch::{
    contact_tags, current_lists, fetched_follows, fetched_lists, is_retired_record,
    latest_contact_list, list_step, offered_package, package_sources, profile_fallback,
    unretired, RelayListStepContent,
};
use crate::directory::app_ingest::{follow_list_of, followed};
use crate::directory::app_remember::FollowListContent;
use crate::directory::app_state::{slot_retired, standing, AppContent};
use crate::directory::entry::EntryContent;
use crate::directory::key_packages::{
    package_of_record, tag_value, FetchedContent, MetadataContent, PackageRecordContent,
};
use crate::directory::records::{
    fresh_lists, relay_list_status, replaces, DirectoryFreshness, EventRecordContent,
    RelayListStatusContent, KIND_MARMOT_INBOX_RELAY_LIST, KIND_NIP65_RELAY_LIST,
    KIND_NOSTR_CONTACT_LIST,
};
use crate::directory::selection_laws::{
    is_usable, law_missing_lists_are_the_empty_ones, law_newest_usable_package_is_chosen,
};
use crate::error::{ErrorContent, MissingRelayListKind};
use crate::order::{lemma_ascending_set_exists, lemma_extend_unique};
use crate::text::public_key_hex;
use vstd::prelude::*;

verus! {

/// Whether relays delivered a list of a kind that an account published and that is not
/// from the future.
pub open spec fn was_delivered(
    records: Seq<EventRecordContent>,
    account: Seq<char>,
    kind: u64,
    freshness: DirectoryFreshness,
) -> bool {
    exists|i: int|
        0 <= i < records.len() && (#[trigger] records[i]).event.pubkey == account
            && records[i].event.kind == kind && records[i].event.created_at
            <= freshness.latest_created_at
}

/// Each relay list that a fetch answers is the one that relays delivered where they
/// delivered one, and the known one where they did not.
pub proof fn law_delivered_lists_are_answered(
    app: AppContent,
    id: Seq<char>,
    records: Seq<EventRecordContent>,
    asked: Seq<Seq<char>>,
    freshness: DirectoryFreshness,
)
    ensures
        ({
            let delivered = relay_list_status(id, fresh_lists(id, records, freshness));
            fetched_lists(app, id, records, asked, freshness) matches Ok(lists) ==> {
                &&& was_delivered(records, id, KIND_NIP65_RELAY_LIST, freshness) ==> lists.nip65
                    == delivered.nip65
                &&& was_delivered(records, id, KIND_MARMOT_INBOX_RELAY_LIST, freshness)
                    ==> lists.inbox == delivered.inbox
                &&& !was_delivered(records, id, KIND_NIP65_RELAY_LIST, freshness) ==> (
                relay_lists_named(app, id) matches Ok(known) && lists.nip65 == known.nip65)
                &&& !was_delivered(records, id, KIND_MARMOT_INBOX_RELAY_LIST, freshness) ==> (
                relay_lists_named(app, id) matches Ok(known) && lists.inbox == known.inbox)
                &&& forall|relay: Seq<char>| #[trigger]
                    delivered.bootstrap_relays.contains(relay) ==> lists.bootstrap_relays.contains(
                        relay,
                    )
                &&& lists.bootstrap_relays.len() > 0 || asked.len() == 0
            }
        }),
{
    let delivered = relay_list_status(id, fresh_lists(id, records, freshness));
    if let Ok(known) = relay_lists_named(app, id) {
        lemma_extend_unique(delivered.bootstrap_relays, known.bootstrap_relays);
    }
}

/// A fetch of current lists answers only where relays delivered a list of the asked
/// kind, or any where no kind was asked for.
pub proof fn law_current_lists_need_a_delivery(
    app: AppContent,
    id: Seq<char>,
    records: Seq<EventRecordContent>,
    asked: Seq<Seq<char>>,
    kind: Option<u64>,
    freshness: DirectoryFreshness,
)
    ensures
        ({
            let delivered = relay_list_status(id, fresh_lists(id, records, freshness));
            let nip65 = was_delivered(records, id, KIND_NIP65_RELAY_LIST, freshness);
            let inbox = was_delivered(records, id, KIND_MARMOT_INBOX_RELAY_LIST, freshness);
            let answer = current_lists(app, id, records, asked, kind, freshness);
            &&& kind == Some(KIND_NIP65_RELAY_LIST) && !nip65 ==> answer == Ok::<
                Option<RelayListStatusContent>,
                ErrorContent,
            >(None)
            &&& kind == Some(KIND_MARMOT_INBOX_RELAY_LIST) && !inbox ==> answer == Ok::<
                Option<RelayListStatusContent>,
                ErrorContent,
            >(None)
            &&& kind is None && !nip65 && !inbox ==> answer == Ok::<
                Option<RelayListStatusContent>,
                ErrorContent,
            >(None)
            &&& (kind is None && (nip65 || inbox) || kind == Some(KIND_NIP65_RELAY_LIST) && nip65
                || kind == Some(KIND_MARMOT_INBOX_RELAY_LIST) && inbox) && answer is Ok
                ==> answer->Ok_0 is Some
            &&& answer matches Ok(Some(lists)) ==> {
                &&& nip65 ==> lists.nip65 == delivered.nip65
                &&& inbox ==> lists.inbox == delivered.inbox
                &&& !nip65 ==> (relay_lists_named(app, id) matches Ok(known) && lists.nip65
                    == known.nip65)
                &&& !inbox ==> (relay_lists_named(app, id) matches Ok(known) && lists.inbox
                    == known.inbox)
                &&& lists.missing.contains(MissingRelayListKind::Nip65)
                    <==> lists.nip65.relays.len() == 0
                &&& lists.missing.contains(MissingRelayListKind::Inbox)
                    <==> lists.inbox.relays.len() == 0
            }
        }),
{
    if let Ok(Some(lists)) = current_lists(app, id, records, asked, kind, freshness) {
        law_missing_lists_are_the_empty_ones(lists);
    }
}

/// Relays that are given are asked. Where none is given, the directory's are asked where
/// no route is known, and nobody where one is.
pub proof fn law_routes_are_fetched_where_none_is_known(
    app: AppContent,
    id: Seq<char>,
    given: Seq<Seq<char>>,
)
    ensures
        given.len() > 0 ==> list_step(app, id, given) == Ok::<RelayListStepContent, ErrorContent>(
            RelayListStepContent::Fetch(given),
        ),
        given.len() == 0 ==> (list_step(app, id, given) matches Ok(RelayListStepContent::Fetch(
            relays,
        )) ==> relays.len() > 0 && (relay_lists_named(app, id) matches Ok(known)
            && known.nip65.relays.len() == 0) && (relays == app.config.directory_relay_urls || (
        app.config.directory_relay_urls.len() == 0 && relays == app.config.relay_urls))),
        given.len() == 0 ==> (list_step(app, id, given) matches Ok(RelayListStepContent::UseKnown(
            lists,
        )) ==> relay_lists_named(app, id) == Ok::<RelayListStatusContent, ErrorContent>(lists) && (
        lists.nip65.relays.len() > 0 || (app.config.directory_relay_urls.len() == 0
            && app.config.relay_urls.len() == 0))),
{
}

/// Key packages are fetched from the relays that may be used, else from the directory's,
/// else from the client's own; without any the NIP-65 list is missing.
pub proof fn law_packages_are_fetched_from_usable_relays(app: AppContent, usable: Seq<Seq<char>>)
    ensures
        usable.len() > 0 ==> package_sources(app, usable) == Ok::<Seq<Seq<char>>, ErrorContent>(
            usable,
        ),
        usable.len() == 0 && app.config.directory_relay_urls.len() > 0 ==> package_sources(
            app,
            usable,
        ) == Ok::<Seq<Seq<char>>, ErrorContent>(app.config.directory_relay_urls),
        usable.len() == 0 && app.config.directory_relay_urls.len() == 0
            && app.config.relay_urls.len() > 0 ==> package_sources(app, usable) == Ok::<
            Seq<Seq<char>>,
            ErrorContent,
        >(app.config.relay_urls),
        usable.len() == 0 && app.config.directory_relay_urls.len() == 0
            && app.config.relay_urls.len() == 0 ==> package_sources(app, usable) == Err::<
            Seq<Seq<char>>,
            ErrorContent,
        >(ErrorContent::MissingRelayLists(seq![MissingRelayListKind::Nip65])),
{
}

/// Whether an event holds a key package of a slot that was removed.
pub open spec fn is_of_removed_slot(
    app: AppContent,
    id: Seq<char>,
    record: PackageRecordContent,
) -> bool {
    slot_retired(
        app,
        id,
        match tag_value(record.record.event.tags, "d"@) {
            Some(slot) => slot,
            None => Seq::empty(),
        },
        standing(app, id) is Admitted,
    )
}

/// What is offered of an account is the newest of its key packages that can be used, is
/// not from the future, and is of no removed slot. Where relays delivered such a one, the
/// cached one is not offered.
pub proof fn law_offered_package_is_the_newest(
    app: AppContent,
    id: Seq<char>,
    records: Seq<PackageRecordContent>,
    cached: Option<EntryContent>,
    cached_metadata: Result<MetadataContent, Seq<char>>,
    freshness: DirectoryFreshness,
)
    requires
        exists|i: int|
            0 <= i < records.len() && is_usable(id, #[trigger] records[i])
                && records[i].record.event.created_at <= freshness.latest_created_at
                && !is_of_removed_slot(app, id, records[i]),
    ensures
        offered_package(app, id, records, cached, cached_metadata, freshness) matches Ok(offered)
            && exists|i: int|
            0 <= i < records.len() && is_usable(id, #[trigger] records[i])
                && records[i].record.event.created_at <= freshness.latest_created_at
                && !is_of_removed_slot(app, id, records[i]) && package_of_record(records[i])
                == Ok::<FetchedContent, ErrorContent>(offered) && forall|j: int|
                0 <= j < records.len() && is_usable(id, #[trigger] records[j])
                    && records[j].record.event.created_at <= freshness.latest_created_at
                    && !is_of_removed_slot(app, id, records[j]) ==> !replaces(
                    records[j].record.event.created_at,
                    records[j].record.event.id,
                    records[i].record.event.created_at,
                    records[i].record.event.id,
                ),
{
    let left = unretired(app, id, records);
    let stays = |r: PackageRecordContent| !is_retired_record(app, id, r);
    assert(left == records.filter(stays));
    let kept = crate::directory::key_packages::fresh_packages(id, left, freshness);
    let keep = |r: PackageRecordContent|
        !crate::directory::key_packages::is_package_of(id, r) || freshness.fresh(r.record);
    assert(kept == left.filter(keep));
    law_newest_usable_package_is_chosen(id, kept);
    assert forall|j: int|
        0 <= j < records.len() && is_usable(id, #[trigger] records[j])
            && records[j].record.event.created_at <= freshness.latest_created_at
            && !is_of_removed_slot(app, id, records[j]) implies kept.contains(records[j]) by {
        assert(stays(records[j]));
        records.lemma_filter_contains(stays, j);
        let k = choose|k: int| 0 <= k < left.len() && left[k] == records[j];
        assert(keep(left[k]));
        left.lemma_filter_contains(keep, k);
    }
    let w = choose|i: int|
        0 <= i < records.len() && is_usable(id, #[trigger] records[i])
            && records[i].record.event.created_at <= freshness.latest_created_at
            && !is_of_removed_slot(app, id, records[i]);
    assert(kept.contains(records[w]));
    let v = choose|k: int| 0 <= k < kept.len() && kept[k] == records[w];
    assert(is_usable(id, kept[v]));
    let offered = crate::directory::key_packages::latest_package(id, kept)->Ok_0;
    let m = choose|i: int|
        0 <= i < kept.len() && is_usable(id, #[trigger] kept[i]) && package_of_record(kept[i])
            == Ok::<FetchedContent, ErrorContent>(offered) && forall|j: int|
            0 <= j < kept.len() && is_usable(id, #[trigger] kept[j]) ==> !replaces(
                kept[j].record.event.created_at,
                kept[j].record.event.id,
                kept[i].record.event.created_at,
                kept[i].record.event.id,
            );
    left.lemma_filter_pred(keep, m);
    assert(kept.contains(kept[m]));
    left.lemma_filter_contains_rev(keep, kept[m]);
    let l = choose|l: int| 0 <= l < left.len() && left[l] == kept[m];
    records.lemma_filter_pred(stays, l);
    assert(left.contains(left[l]));
    records.lemma_filter_contains_rev(stays, left[l]);
    let i = choose|i: int| 0 <= i < records.len() && records[i] == left[l];
    assert(is_usable(id, records[i]));
    assert forall|j: int|
        0 <= j < records.len() && is_usable(id, #[trigger] records[j])
            && records[j].record.event.created_at <= freshness.latest_created_at
            && !is_of_removed_slot(app, id, records[j]) implies !replaces(
        records[j].record.event.created_at,
        records[j].record.event.id,
        records[i].record.event.created_at,
        records[i].record.event.id,
    ) by {
        assert(kept.contains(records[j]));
        let k = choose|k: int| 0 <= k < kept.len() && kept[k] == records[j];
        assert(is_usable(id, kept[k]));
    }
}

/// Whether an event is a contact list of an account that is not from the future.
pub open spec fn is_own_contact_list(
    record: EventRecordContent,
    account: Seq<char>,
    freshness: DirectoryFreshness,
) -> bool {
    &&& record.event.kind == KIND_NOSTR_CONTACT_LIST
    &&& record.event.pubkey == account
    &&& record.event.created_at <= freshness.latest_created_at
}

/// Of the contact lists of an account the newest is taken: one is found exactly where
/// there is one, and none replaces it.
pub proof fn law_newest_contact_list_is_taken(
    records: Seq<EventRecordContent>,
    account: Seq<char>,
    freshness: DirectoryFreshness,
)
    ensures
        latest_contact_list(records, account, freshness) is None ==> forall|i: int|
            0 <= i < records.len() ==> !is_own_contact_list(
                #[trigger] records[i],
                account,
                freshness,
            ),
        latest_contact_list(records, account, freshness) matches Some(taken) ==> {
            &&& is_own_contact_list(taken, account, freshness)
            &&& records.contains(taken)
            &&& forall|i: int|
                0 <= i < records.len() && is_own_contact_list(
                    #[trigger] records[i],
                    account,
                    freshness,
                ) ==> !replaces(
                    records[i].event.created_at,
                    records[i].event.id,
                    taken.event.created_at,
                    taken.event.id,
                )
        },
    decreases records.len(),
{
    if records.len() > 0 {
        let rest = records.drop_last();
        let last = records.last();
        let before = latest_contact_list(rest, account, freshness);
        law_newest_contact_list_is_taken(rest, account, freshness);
        assert(records[records.len() - 1] == last);
        if let Some(taken) = latest_contact_list(records, account, freshness) {
            if before is Some && before == Some(taken) {
                let k = choose|k: int| 0 <= k < rest.len() && rest[k] == taken;
                assert(records[k] == taken);
            }
            crate::order::lemma_text_lt_total(last.event.id, last.event.id);
            assert forall|i: int|
                0 <= i < records.len() && is_own_contact_list(
                    #[trigger] records[i],
                    account,
                    freshness,
                ) implies !replaces(
                records[i].event.created_at,
                records[i].event.id,
                taken.event.created_at,
                taken.event.id,
            ) by {
                if i < rest.len() {
                    assert(rest[i] == records[i]);
                    if taken == last && before is Some {
                        let b = before->0;
                        crate::order::lemma_text_lt_total(records[i].event.id, last.event.id);
                        crate::order::lemma_text_lt_total(b.event.id, last.event.id);
                        crate::order::lemma_text_lt_total(records[i].event.id, b.event.id);
                        if replaces(
                            records[i].event.created_at,
                            records[i].event.id,
                            last.event.created_at,
                            last.event.id,
                        ) {
                            crate::directory::records::law_replacing_is_transitive(
                                records[i].event.created_at,
                                records[i].event.id,
                                last.event.created_at,
                                last.event.id,
                                b.event.created_at,
                                b.event.id,
                            );
                        }
                    }
                }
            }
        } else {
            assert forall|i: int| 0 <= i < records.len() implies !is_own_contact_list(
                #[trigger] records[i],
                account,
                freshness,
            ) by {
                if i < rest.len() {
                    assert(rest[i] == records[i]);
                }
            }
        }
    }
}

/// A fetch of a contact list answers the newest that relays delivered, or the known one
/// where they delivered none; of an account of whom nothing is known, nobody.
pub proof fn law_fetched_follows_are_the_newest(
    app: AppContent,
    id: Seq<char>,
    records: Seq<EventRecordContent>,
    asked: Seq<Seq<char>>,
    freshness: DirectoryFreshness,
)
    ensures
        latest_contact_list(records, id, freshness) matches Some(taken) ==> fetched_follows(
            app,
            id,
            records,
            asked,
            freshness,
        ) == Ok::<FollowListContent, ErrorContent>(follow_list_of(taken)),
        latest_contact_list(records, id, freshness) is None ==> match entry_named(
            app,
            id,
            Gate::Inspect,
        ) {
            Err(error) => fetched_follows(app, id, records, asked, freshness) == Err::<
                FollowListContent,
                ErrorContent,
            >(error),
            Ok(Some(entry)) => fetched_follows(app, id, records, asked, freshness)->Ok_0.follows
                == entry.follows && fetched_follows(app, id, records, asked, freshness) is Ok,
            Ok(None) => fetched_follows(app, id, records, asked, freshness)->Ok_0.follows.len()
                == 0 && fetched_follows(app, id, records, asked, freshness) is Ok,
        },
{
}

/// A contact list follows exactly the identities that its `p` tags name, each once.
pub proof fn law_contact_list_follows_its_tags(record: EventRecordContent, id: Seq<char>)
    ensures
        follow_list_of(record).follows.contains(id) <==> exists|i: int|
            0 <= i < record.event.tags.len() && (#[trigger] record.event.tags[i]).len() > 1
                && record.event.tags[i][0] == "p"@ && public_key_hex(record.event.tags[i][1])
                == Some(id),
        follow_list_of(record).follows.no_duplicates(),
        forall|relay: Seq<char>| #[trigger]
            follow_list_of(record).source_relays.contains(relay) <==> record.endpoints.contains(
                relay,
            ),
{
    lemma_ascending_set_exists(followed(record.event.tags));
    lemma_extend_unique(Seq::<Seq<char>>::empty(), record.endpoints);
    lemma_followed(record.event.tags, id);
}

proof fn lemma_followed(tags: Seq<Seq<Seq<char>>>, id: Seq<char>)
    ensures
        followed(tags).contains(id) <==> exists|i: int|
            0 <= i < tags.len() && (#[trigger] tags[i]).len() > 1 && tags[i][0] == "p"@
                && public_key_hex(tags[i][1]) == Some(id),
    decreases tags.len(),
{
    if tags.len() > 0 {
        let rest = tags.drop_last();
        let last = tags.last();
        let before = followed(rest);
        lemma_followed(rest, id);
        assert(tags[tags.len() - 1] == last);
        if let Some(key) = public_key_hex(last[1]) {
            crate::order::lemma_push_contains(before, key, id);
        }
        if before.contains(id) {
            let i = choose|i: int|
                0 <= i < rest.len() && (#[trigger] rest[i]).len() > 1 && rest[i][0] == "p"@
                    && public_key_hex(rest[i][1]) == Some(id);
            assert(tags[i] == rest[i]);
        }
        if exists|i: int|
            0 <= i < tags.len() && (#[trigger] tags[i]).len() > 1 && tags[i][0] == "p"@
                && public_key_hex(tags[i][1]) == Some(id) {
            let i = choose|i: int|
                0 <= i < tags.len() && (#[trigger] tags[i]).len() > 1 && tags[i][0] == "p"@
                    && public_key_hex(tags[i][1]) == Some(id);
            if i < rest.len() {
                assert(rest[i] == tags[i]);
            }
        }
    }
}

/// A published contact list has one `p` tag for each identity, in order, so that it is
/// read back as the identities that were put into it.
pub proof fn law_published_contacts_are_read_back(follows: Seq<Seq<char>>, id: Seq<char>)
    requires
        forall|i: int|
            0 <= i < follows.len() ==> public_key_hex(#[trigger] follows[i]) == Some(follows[i]),
    ensures
        contact_tags(follows).len() == follows.len(),
        followed(contact_tags(follows)).contains(id) <==> follows.contains(id),
{
    let tags = contact_tags(follows);
    lemma_followed(tags, id);
    assert forall|i: int| 0 <= i < tags.len() implies (#[trigger] tags[i]).len() == 2 && tags[i][0]
        == "p"@ && tags[i][1] == follows[i] by {}
    if follows.contains(id) {
        let i = choose|i: int| 0 <= i < follows.len() && follows[i] == id;
        assert(tags[i][1] == id);
    }
    if followed(tags).contains(id) {
        let i = choose|i: int|
            0 <= i < tags.len() && (#[trigger] tags[i]).len() > 1 && tags[i][0] == "p"@
                && public_key_hex(tags[i][1]) == Some(id);
        assert(follows[i] == id);
    }
}

/// A profile goes where the account is known to be served, else to its default relays.
pub proof fn law_profile_goes_where_the_account_is_served(lists: RelayListStatusContent)
    ensures
        lists.bootstrap_relays.len() > 0 ==> profile_fallback(lists) == lists.bootstrap_relays,
        lists.bootstrap_relays.len() == 0 ==> profile_fallback(lists) == lists.default_relays,
{
}

} // verus!
