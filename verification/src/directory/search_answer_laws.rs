//! What holds of the answer to a search: who counts as a match and how well, who
//! comes first, and who is left out where not all may be returned.

use crate::directory::app_entry::{accounts_keyed, parsed_id};
use crate::directory::app_search::{
    graph_records, layer_walked, lemma_searched_names, matches_in, search_outcome, searched,
    visited, walk_from, walked, with_follows, SearchContent, Walk,
};
use crate::directory::app_state::{AccountContent, ConfigContent};
use crate::directory::entry::EntryContent;
use crate::directory::search_match::{
    lemma_result_weak_order, occurs_at, provider_order, quality_of, record_match, result_lt,
    result_of, result_rank, MatchQuality, MatchedField, ProviderRank, ResultContent,
};
use crate::order::{
    ascending_set, lemma_ascending_set_exists, lemma_same_elements, lemma_sorted_by, sorted_by,
    text_lt,
};
use crate::text::{lowercased, trimmed};
use vstd::prelude::*;

verus! {

proof fn lemma_encode_concat(left: Seq<char>, right: Seq<char>)
    ensures
        vstd::utf8::encode_utf8(left + right) == vstd::utf8::encode_utf8(left)
            + vstd::utf8::encode_utf8(right),
    decreases left.len(),
{
    let all = vstd::utf8::encode_utf8(left + right);
    if left.len() == 0 {
        assert(left + right =~= right);
        assert(all =~= vstd::utf8::encode_utf8(left) + vstd::utf8::encode_utf8(right));
    } else {
        assert((left + right).drop_first() =~= left.drop_first() + right);
        lemma_encode_concat(left.drop_first(), right);
        assert(all =~= vstd::utf8::encode_utf8(left) + vstd::utf8::encode_utf8(right));
    }
}

/// A text matches a query exactly where it is the query, from its start where it
/// only begins with it, and anywhere where it holds it further on. Where it does not
/// match, it holds the query nowhere.
pub proof fn law_match_quality(text: Seq<char>, query: Seq<char>)
    ensures
        quality_of(text, query) == Some(MatchQuality::Exact) <==> text == query,
        forall|rest: Seq<char>|
            rest.len() > 0 && text == #[trigger] (query + rest) ==> quality_of(text, query) == Some(
                MatchQuality::Prefix,
            ),
        forall|before: Seq<char>, rest: Seq<char>|
            text == #[trigger] (before + query + rest) ==> quality_of(text, query) is Some,
{
    let bytes = vstd::utf8::encode_utf8(text);
    let part = vstd::utf8::encode_utf8(query);
    vstd::utf8::encode_utf8_decode_utf8(text);
    vstd::utf8::encode_utf8_decode_utf8(query);
    assert forall|rest: Seq<char>|
        rest.len() > 0 && text == #[trigger] (query + rest) implies quality_of(text, query) == Some(
        MatchQuality::Prefix,
    ) by {
        lemma_encode_concat(query, rest);
        assert(bytes.subrange(0, part.len() as int) =~= part);
        assert(occurs_at(bytes, part, 0));
        if text == query {
            assert(text.len() == query.len() + rest.len());
        }
    }
    assert forall|before: Seq<char>, rest: Seq<char>|
        text == #[trigger] (before + query + rest) implies quality_of(text, query) is Some by {
        let head = vstd::utf8::encode_utf8(before);
        lemma_encode_concat(before, query);
        lemma_encode_concat(before + query, rest);
        let at = head.len() as int;
        assert(bytes.subrange(at, at + part.len()) =~= part);
        assert(occurs_at(bytes, part, at));
    }
}

/// The text of an account that a field names.
pub open spec fn field_text(entry: EntryContent, field: MatchedField) -> Option<Seq<char>> {
    match field {
        MatchedField::Name => match entry.profile {
            Some(profile) => profile.name,
            None => None,
        },
        MatchedField::DisplayName => match entry.profile {
            Some(profile) => profile.display_name,
            None => None,
        },
        MatchedField::Nip05 => match entry.profile {
            Some(profile) => profile.nip05,
            None => None,
        },
        MatchedField::About => match entry.profile {
            Some(profile) => profile.about,
            None => None,
        },
        MatchedField::Npub => Some(entry.npub),
        MatchedField::AccountId => Some(entry.account_id_hex),
    }
}

/// An account matches a query exactly where one of its texts does, without regard
/// to case. The match is told of a text that matches that well, no text matches
/// better, and of those that match as well it is the most telling.
pub proof fn law_best_text_is_told(entry: EntryContent, query: Seq<char>, field: MatchedField)
    ensures
        field_text(entry, field) matches Some(text) ==> (quality_of(
            lowercased(text),
            query,
        ) matches Some(quality) ==> (record_match(entry, query) matches Some(found)
            && found.quality.place() <= quality.place() && (found.quality == quality
            ==> found.field.place() <= field.place()))),
        record_match(entry, query) matches Some(found) ==> (field_text(
            entry,
            found.field,
        ) matches Some(text) && quality_of(lowercased(text), query) == Some(found.quality)),
{
}

/// An exact match is better than one at the start, and that than one anywhere. A
/// name tells more than a display name, and so on to the identity in hexadecimal.
pub proof fn law_places_of_matches()
    ensures
        MatchQuality::Exact.place() < MatchQuality::Prefix.place()
            < MatchQuality::Contains.place(),
        MatchedField::Name.place() < MatchedField::DisplayName.place()
            < MatchedField::Nip05.place() < MatchedField::About.place()
            < MatchedField::Npub.place() < MatchedField::AccountId.place(),
{
}

/// Which of two results comes first: the nearer one; at one radius the one that a
/// provider ranked higher; then the one that matched better, in the more telling
/// field, and at last the one whose identity is the lesser text.
pub proof fn law_nearer_and_better_results_come_first(a: ResultContent, b: ResultContent)
    ensures
        a.radius < b.radius ==> result_lt()(a, b),
        a.radius == b.radius && provider_order(a.provider_rank, b.provider_rank) < 0
            ==> result_lt()(a, b),
        a.radius == b.radius && a.provider_rank == b.provider_rank ==> {
            &&& a.match_quality is Exact && b.match_quality !is Exact ==> result_lt()(a, b)
            &&& a.match_quality is Prefix && b.match_quality is Contains ==> result_lt()(a, b)
            &&& a.match_quality == b.match_quality && a.matched_field.place()
                < b.matched_field.place() ==> result_lt()(a, b)
            &&& a.match_quality == b.match_quality && a.matched_field == b.matched_field
                && text_lt(a.account_id_hex, b.account_id_hex) ==> result_lt()(a, b)
        },
        result_lt()(a, b) ==> a.radius <= b.radius && !result_lt()(b, a),
{
    lemma_result_weak_order();
    crate::order::lemma_text_lt_total(a.account_id_hex, b.account_id_hex);
    assert(result_lt()(a, b) == (result_rank(a, b) < 0));
}

/// A result that a provider ranked comes before one that none did. Of two ranks the
/// greater number comes first: any that is not negative before any that is, the
/// larger bits first where neither is negative, the smaller where both are.
pub proof fn law_higher_provider_rank_comes_first(a: ProviderRank, b: ProviderRank)
    ensures
        provider_order(Some(a), None) < 0,
        provider_order(None, Some(a)) > 0,
        provider_order(Some(a), Some(b)) < 0 <==> (if a.bits < 0x8000_0000_0000_0000
            && b.bits < 0x8000_0000_0000_0000 {
            a.bits > b.bits
        } else if a.bits >= 0x8000_0000_0000_0000 && b.bits >= 0x8000_0000_0000_0000 {
            a.bits < b.bits
        } else {
            a.bits < 0x8000_0000_0000_0000
        }),
{
}

/// Whether an account that a walk found is a match in the window of a search.
pub open spec fn is_match(search: SearchContent) -> spec_fn((EntryContent, u8)) -> bool {
    |record: (EntryContent, u8)|
        search.radius_start <= record.1 <= search.radius_end && record_match(
            record.0,
            lowercased(trimmed(search.query)),
        ) is Some
}

proof fn lemma_matches_are_all(records: Seq<(EntryContent, u8)>, search: SearchContent)
    ensures
        ({
            let query = lowercased(trimmed(search.query));
            let found = matches_in(records, search.radius_start, search.radius_end, query);
            &&& found.len() == records.filter(is_match(search)).len()
            &&& forall|i: int|
                0 <= i < records.len() && is_match(search)(#[trigger] records[i])
                    ==> found.contains(
                    result_of(
                        records[i].0,
                        records[i].1,
                        record_match(records[i].0, query)->Some_0,
                        None,
                    ),
                )
            &&& forall|k: int|
                0 <= k < found.len() ==> exists|i: int|
                    0 <= i < records.len() && is_match(search)(#[trigger] records[i])
                        && #[trigger] found[k] == result_of(
                        records[i].0,
                        records[i].1,
                        record_match(records[i].0, query)->Some_0,
                        None,
                    )
        }),
    decreases records.len(),
{
    reveal(Seq::filter);
    let query = lowercased(trimmed(search.query));
    let keep = is_match(search);
    let found = matches_in(records, search.radius_start, search.radius_end, query);
    if records.len() > 0 {
        let rest = records.drop_last();
        let last = records.last();
        let before = matches_in(rest, search.radius_start, search.radius_end, query);
        lemma_matches_are_all(rest, search);
        assert(records[records.len() - 1] == last);
        assert forall|i: int| 0 <= i < records.len() && keep(#[trigger] records[i]) implies found.contains(
            result_of(
                records[i].0,
                records[i].1,
                record_match(records[i].0, query)->Some_0,
                None,
            ),
        ) by {
            let one = result_of(
                records[i].0,
                records[i].1,
                record_match(records[i].0, query)->Some_0,
                None,
            );
            if i < rest.len() {
                assert(keep(rest[i]));
                assert(before.contains(one));
                let k = choose|k: int| 0 <= k < before.len() && before[k] == one;
                assert(found[k] == one);
            } else {
                assert(found[found.len() - 1] == one);
            }
        }
        assert forall|k: int| 0 <= k < found.len() implies exists|i: int|
            0 <= i < records.len() && keep(#[trigger] records[i]) && #[trigger] found[k]
                == result_of(
                records[i].0,
                records[i].1,
                record_match(records[i].0, query)->Some_0,
                None,
            ) by {
            if k < before.len() {
                assert(found[k] == before[k]);
                let i = choose|i: int|
                    0 <= i < rest.len() && keep(#[trigger] rest[i]) && before[k] == result_of(
                        rest[i].0,
                        rest[i].1,
                        record_match(rest[i].0, query)->Some_0,
                        None,
                    );
                assert(keep(records[i]));
            } else {
                assert(keep(records[records.len() - 1]));
            }
        }
    }
}

/// A search returns the best of its matches: as many as its limit allows and all
/// where it has none. Each result is that of a matching account in the window, and
/// a matching account that is left out ranks before none that is returned.
pub proof fn law_search_returns_the_best(
    accounts: Seq<AccountContent>,
    config: ConfigContent,
    now: i64,
    search: SearchContent,
    records: Seq<(EntryContent, u8)>,
    results: Seq<ResultContent>,
)
    requires
        graph_records(
            accounts,
            config,
            now,
            search.searcher_account_id_hex,
            search.radius_end,
        ) == Ok::<Seq<(EntryContent, u8)>, crate::error::ErrorContent>(records),
        search_outcome(accounts, config, now, search) == Ok::<
            Seq<ResultContent>,
            crate::error::ErrorContent,
        >(results),
        lowercased(trimmed(search.query)).len() > 0,
    ensures
        ({
            let count = records.filter(is_match(search)).len();
            results.len() == (match search.limit {
                Some(limit) => if limit < count {
                    limit as nat
                } else {
                    count
                },
                None => count,
            })
        }),
        forall|k: int|
            0 <= k < results.len() ==> exists|i: int|
                0 <= i < records.len() && is_match(search)(#[trigger] records[i])
                    && #[trigger] results[k] == (ResultContent {
                    account_id_hex: records[i].0.account_id_hex,
                    npub: records[i].0.npub,
                    radius: records[i].1,
                    matched_field: record_match(
                        records[i].0,
                        lowercased(trimmed(search.query)),
                    )->Some_0.field,
                    match_quality: record_match(
                        records[i].0,
                        lowercased(trimmed(search.query)),
                    )->Some_0.quality,
                    provider_rank: None,
                    profile: records[i].0.profile,
                }),
        forall|i: int, k: int|
            #![trigger records[i], results[k]]
            0 <= i < records.len() && is_match(search)(records[i]) && 0 <= k < results.len() ==> {
                let left_out = ResultContent {
                    account_id_hex: records[i].0.account_id_hex,
                    npub: records[i].0.npub,
                    radius: records[i].1,
                    matched_field: record_match(
                        records[i].0,
                        lowercased(trimmed(search.query)),
                    )->Some_0.field,
                    match_quality: record_match(
                        records[i].0,
                        lowercased(trimmed(search.query)),
                    )->Some_0.quality,
                    provider_rank: None,
                    profile: records[i].0.profile,
                };
                results.contains(left_out) || !result_lt()(left_out, results[k])
            },
        forall|j: int, k: int|
            0 <= j < k < results.len() ==> !result_lt()(#[trigger] results[k], #[trigger] results[j]),
{
    let query = lowercased(trimmed(search.query));
    let found = matches_in(records, search.radius_start, search.radius_end, query);
    let ranked = sorted_by(found, result_lt());
    let lt = result_lt();
    lemma_matches_are_all(records, search);
    lemma_result_weak_order();
    lemma_sorted_by(found, lt);
    lemma_same_elements(ranked, found);
    assert forall|k: int| 0 <= k < results.len() implies #[trigger] results[k] == ranked[k] by {}
    assert forall|k: int| 0 <= k < results.len() implies exists|i: int|
        0 <= i < records.len() && is_match(search)(#[trigger] records[i]) && #[trigger] results[k]
            == result_of(
            records[i].0,
            records[i].1,
            record_match(records[i].0, query)->Some_0,
            None,
        ) by {
        assert(ranked.contains(ranked[k]));
        assert(found.contains(ranked[k]));
        let f = choose|f: int| 0 <= f < found.len() && found[f] == ranked[k];
        let i = choose|i: int|
            0 <= i < records.len() && is_match(search)(#[trigger] records[i]) && found[f]
                == result_of(
                records[i].0,
                records[i].1,
                record_match(records[i].0, query)->Some_0,
                None,
            );
        assert(is_match(search)(records[i]));
    }
    assert forall|i: int, k: int|
        #![trigger records[i], results[k]]
        0 <= i < records.len() && is_match(search)(records[i]) && 0 <= k < results.len() implies ({
        let left_out = result_of(
            records[i].0,
            records[i].1,
            record_match(records[i].0, query)->Some_0,
            None,
        );
        results.contains(left_out) || !result_lt()(left_out, results[k])
    }) by {
        let left_out = result_of(
            records[i].0,
            records[i].1,
            record_match(records[i].0, query)->Some_0,
            None,
        );
        assert(found.contains(left_out));
        assert(ranked.contains(left_out));
        let j = choose|j: int| 0 <= j < ranked.len() && ranked[j] == left_out;
        if j < results.len() {
            assert(results[j] == left_out);
        } else {
            assert(!lt(ranked[j], ranked[k]));
        }
    }
    assert forall|j: int, k: int| 0 <= j < k < results.len() implies !lt(
        #[trigger] results[k],
        #[trigger] results[j],
    ) by {
        assert(!lt(ranked[k], ranked[j]));
    }
}

/// A search whose query is blank finds nobody, and one whose window of radii ends
/// before it starts is refused.
pub proof fn law_blank_query_finds_nobody(
    accounts: Seq<AccountContent>,
    config: ConfigContent,
    now: i64,
    search: SearchContent,
)
    ensures
        search.radius_start > search.radius_end ==> search_outcome(
            accounts,
            config,
            now,
            search,
        ) is Err,
        lowercased(trimmed(search.query)).len() == 0 ==> (search_outcome(
            accounts,
            config,
            now,
            search,
        ) matches Ok(results) ==> results.len() == 0),
{
}

spec fn is_follower(record: (EntryContent, u8), id: Seq<char>, radius: int) -> bool {
    record.1 == radius && record.0.follows.contains(id)
}

spec fn is_followed(records: Seq<(EntryContent, u8)>, id: Seq<char>, radius: int) -> bool {
    exists|j: int| 0 <= j < records.len() && is_follower(#[trigger] records[j], id, radius)
}

spec fn is_reached(
    records: Seq<(EntryContent, u8)>,
    searcher: Seq<char>,
    id: Seq<char>,
    radius: int,
) -> bool {
    if radius == 0 {
        id == searcher
    } else {
        is_followed(records, id, radius - 1)
    }
}

spec fn all_reached(
    accounts: Seq<AccountContent>,
    now: i64,
    searcher: Seq<char>,
    records: Seq<(EntryContent, u8)>,
) -> bool {
    forall|i: int|
        0 <= i < records.len() ==> {
            &&& is_reached(
                records,
                searcher,
                (#[trigger] records[i]).0.account_id_hex,
                records[i].1 as int,
            )
            &&& searched(accounts, records[i].0.account_id_hex, now) == Ok::<
                Option<EntryContent>,
                crate::error::ErrorContent,
            >(Some(records[i].0))
        }
}

proof fn lemma_reached_grows(
    records: Seq<(EntryContent, u8)>,
    record: (EntryContent, u8),
    searcher: Seq<char>,
    id: Seq<char>,
    radius: int,
)
    requires
        is_reached(records, searcher, id, radius),
    ensures
        is_reached(records.push(record), searcher, id, radius),
{
    if radius != 0 {
        let j = choose|j: int|
            0 <= j < records.len() && is_follower(#[trigger] records[j], id, radius - 1);
        assert(is_follower(records.push(record)[j], id, radius - 1));
    }
}

proof fn lemma_follows_are_taken(
    next: Seq<Seq<char>>,
    seen: Set<Seq<char>>,
    follows: Seq<Seq<char>>,
    limit: usize,
)
    ensures
        forall|id: Seq<char>| #[trigger]
            with_follows(next, seen, follows, limit).contains(id) ==> next.contains(id)
                || follows.contains(id),
    decreases follows.len(),
{
    if follows.len() > 0 {
        let rest = follows.drop_last();
        let before = with_follows(next, seen, rest, limit);
        let after = with_follows(next, seen, follows, limit);
        lemma_follows_are_taken(next, seen, rest, limit);
        assert forall|id: Seq<char>| #[trigger] after.contains(id) implies next.contains(id)
            || follows.contains(id) by {
            let k = choose|k: int| 0 <= k < after.len() && after[k] == id;
            if k < before.len() {
                assert(before[k] == id);
                assert(before.contains(id));
                if rest.contains(id) {
                    let j = choose|j: int| 0 <= j < rest.len() && rest[j] == id;
                    assert(follows[j] == id);
                }
            } else {
                assert(follows[follows.len() - 1] == id);
            }
        }
    }
}

spec fn walk_linked(
    accounts: Seq<AccountContent>,
    now: i64,
    searcher: Seq<char>,
    walk: Walk,
    radius: int,
) -> bool {
    &&& all_reached(accounts, now, searcher, walk.records)
    &&& forall|id: Seq<char>| #[trigger]
        walk.next.contains(id) ==> is_reached(walk.records, searcher, id, radius)
}

proof fn lemma_visited_linked(
    accounts: Seq<AccountContent>,
    config: ConfigContent,
    now: i64,
    searcher: Seq<char>,
    walk: Walk,
    id: Seq<char>,
    radius: u8,
    last: bool,
)
    requires
        accounts_keyed(accounts),
        walk_linked(accounts, now, searcher, walk, radius + 1),
        is_reached(walk.records, searcher, id, radius as int),
    ensures
        visited(accounts, config, now, walk, id, radius, last) matches Ok(after) ==> walk_linked(
            accounts,
            now,
            searcher,
            after,
            radius + 1,
        ) && (forall|other: Seq<char>| #[trigger]
            is_reached(walk.records, searcher, other, radius as int) ==> is_reached(
                after.records,
                searcher,
                other,
                radius as int,
            )),
{
    lemma_searched_names(accounts, id, now);
    if let Ok(after) = visited(accounts, config, now, walk, id, radius, last) {
        if after.records != walk.records {
            let record = after.records.last();
            let entry = record.0;
            let seen = walk.seen.insert(id);
            assert(after.records == walk.records.push(record));
            assert forall|other: Seq<char>| #[trigger]
                is_reached(walk.records, searcher, other, radius as int) implies is_reached(
                after.records,
                searcher,
                other,
                radius as int,
            ) by {
                lemma_reached_grows(walk.records, record, searcher, other, radius as int);
            }
            assert forall|i: int| 0 <= i < after.records.len() implies is_reached(
                after.records,
                searcher,
                (#[trigger] after.records[i]).0.account_id_hex,
                after.records[i].1 as int,
            ) && searched(accounts, after.records[i].0.account_id_hex, now) == Ok::<
                Option<EntryContent>,
                crate::error::ErrorContent,
            >(Some(after.records[i].0)) by {
                if i < walk.records.len() {
                    assert(after.records[i] == walk.records[i]);
                    lemma_reached_grows(
                        walk.records,
                        record,
                        searcher,
                        walk.records[i].0.account_id_hex,
                        walk.records[i].1 as int,
                    );
                } else {
                    lemma_reached_grows(walk.records, record, searcher, id, radius as int);
                }
            }
            lemma_follows_are_taken(walk.next, seen, entry.follows, config.search_max_frontier);
            assert forall|other: Seq<char>| #[trigger] after.next.contains(other) implies is_reached(
                after.records,
                searcher,
                other,
                radius + 1,
            ) by {
                if walk.next.contains(other) {
                    lemma_reached_grows(walk.records, record, searcher, other, radius + 1);
                } else {
                    assert(is_follower(
                        after.records[after.records.len() - 1],
                        other,
                        radius as int,
                    ));
                }
            }
        }
    }
}

proof fn lemma_layer_linked(
    accounts: Seq<AccountContent>,
    config: ConfigContent,
    now: i64,
    searcher: Seq<char>,
    walk: Walk,
    frontier: Seq<Seq<char>>,
    radius: u8,
    last: bool,
)
    requires
        accounts_keyed(accounts),
        walk_linked(accounts, now, searcher, walk, radius + 1),
        forall|id: Seq<char>| #[trigger]
            frontier.contains(id) ==> is_reached(walk.records, searcher, id, radius as int),
    ensures
        layer_walked(accounts, config, now, walk, frontier, radius, last) matches Ok(after)
            ==> walk_linked(accounts, now, searcher, after, radius + 1),
    decreases frontier.len(),
{
    if frontier.len() > 0 {
        let id = frontier[0];
        assert(frontier.contains(id));
        lemma_visited_linked(accounts, config, now, searcher, walk, id, radius, last);
        if let Ok(after) = visited(accounts, config, now, walk, id, radius, last) {
            let rest = frontier.drop_first();
            assert forall|other: Seq<char>| #[trigger] rest.contains(other) implies is_reached(
                after.records,
                searcher,
                other,
                radius as int,
            ) by {
                let k = choose|k: int| 0 <= k < rest.len() && rest[k] == other;
                assert(frontier[k + 1] == other);
                assert(frontier.contains(other));
                assert(is_reached(walk.records, searcher, other, radius as int));
            }
            lemma_layer_linked(accounts, config, now, searcher, after, rest, radius, last);
        }
    }
}

proof fn lemma_walk_linked(
    accounts: Seq<AccountContent>,
    config: ConfigContent,
    now: i64,
    searcher: Seq<char>,
    walk: Walk,
    radius: int,
    radius_end: u8,
)
    requires
        accounts_keyed(accounts),
        0 <= radius <= radius_end,
        walk_linked(accounts, now, searcher, walk, radius),
    ensures
        walked(accounts, config, now, walk, radius, radius_end) matches Ok(after) ==> all_reached(
            accounts,
            now,
            searcher,
            after.records,
        ),
    decreases radius_end - radius,
{
    let start = Walk { next: Seq::empty(), ..walk };
    let frontier = ascending_set(walk.next);
    let last = radius >= radius_end;
    lemma_ascending_set_exists(walk.next);
    assert forall|id: Seq<char>| #[trigger] frontier.contains(id) implies is_reached(
        walk.records,
        searcher,
        id,
        radius,
    ) by {
        assert(walk.next.contains(id));
    }
    lemma_layer_linked(accounts, config, now, searcher, start, frontier, radius as u8, last);
    if let Ok(after) = layer_walked(accounts, config, now, start, frontier, radius as u8, last) {
        if !(after.full || last) {
            lemma_walk_linked(accounts, config, now, searcher, after, radius + 1, radius_end);
        }
    }
}

/// At radius nought a walk finds the searcher alone. Any account that it finds
/// further out is followed by one that it found one step nearer. Of each it tells
/// what the caches of signed-in accounts know.
pub proof fn law_found_accounts_are_followed(
    accounts: Seq<AccountContent>,
    config: ConfigContent,
    now: i64,
    searcher: Seq<char>,
    radius_end: u8,
    records: Seq<(EntryContent, u8)>,
    i: int,
)
    requires
        accounts_keyed(accounts),
        graph_records(accounts, config, now, searcher, radius_end) == Ok::<
            Seq<(EntryContent, u8)>,
            crate::error::ErrorContent,
        >(records),
        0 <= i < records.len(),
    ensures
        records[i].1 == 0 ==> parsed_id(searcher) == Ok::<Seq<char>, crate::error::ErrorContent>(
            records[i].0.account_id_hex,
        ),
        records[i].1 > 0 ==> exists|j: int|
            0 <= j < records.len() && (#[trigger] records[j]).1 == records[i].1 - 1
                && records[j].0.follows.contains(records[i].0.account_id_hex),
        searched(accounts, records[i].0.account_id_hex, now) == Ok::<
            Option<EntryContent>,
            crate::error::ErrorContent,
        >(Some(records[i].0)),
{
    let id = parsed_id(searcher)->Ok_0;
    let start = walk_from(id);
    assert forall|other: Seq<char>| #[trigger] start.next.contains(other) implies is_reached(
        start.records,
        id,
        other,
        0,
    ) by {
        let k = choose|k: int| 0 <= k < start.next.len() && start.next[k] == other;
    }
    lemma_walk_linked(accounts, config, now, id, start, 0, radius_end);
    if records[i].1 > 0 {
        let found = records[i].0.account_id_hex;
        let radius = records[i].1 as int;
        assert(is_reached(records, id, found, radius));
        let j = choose|j: int|
            0 <= j < records.len() && is_follower(#[trigger] records[j], found, radius - 1);
        assert(records[j].1 == records[i].1 - 1);
    }
}

} // verus!
