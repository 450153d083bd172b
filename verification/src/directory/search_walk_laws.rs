//! A search of the cached graph leaves out nobody that it can reach.

use crate::directory::app_entry::parsed_id;
use crate::directory::app_search::{
    graph_records, layer_walked, searched, visited, walk_from, walked, with_follows, Walk,
};
use crate::directory::app_state::{AccountContent, ConfigContent};
use crate::directory::entry::EntryContent;
use crate::error::ErrorContent;
use crate::order::{
    ascending_set, lemma_ascending_set_exists, lemma_push_contains,
};
use vstd::prelude::*;

verus! {

/// How many follows the accounts that were found have together.
pub open spec fn follow_count(records: Seq<(EntryContent, u8)>) -> nat
    decreases records.len(),
{
    if records.len() == 0 {
        0
    } else {
        follow_count(records.drop_last()) + records.last().0.follows.len()
    }
}

proof fn lemma_count_grows(records: Seq<(EntryContent, u8)>, n: int)
    requires
        0 <= n <= records.len(),
    ensures
        follow_count(records.take(n)) <= follow_count(records),
    decreases records.len(),
{
    if n < records.len() {
        lemma_count_grows(records.drop_last(), n);
        assert(records.drop_last().take(n) =~= records.take(n));
    } else {
        assert(records.take(n) =~= records);
    }
}

spec fn extends(before: Seq<(EntryContent, u8)>, after: Seq<(EntryContent, u8)>) -> bool {
    before.len() <= after.len() && after.take(before.len() as int) == before
}

spec fn is_recorded(records: Seq<(EntryContent, u8)>, entry: EntryContent) -> bool {
    exists|j: int| 0 <= j < records.len() && (#[trigger] records[j]).0 == entry
}

spec fn settled(accounts: Seq<AccountContent>, now: i64, walk: Walk) -> bool {
    forall|id: Seq<char>| #[trigger]
        walk.seen.contains(id) ==> (searched(accounts, id, now) matches Ok(Some(entry))
            ==> is_recorded(walk.records, entry))
}

proof fn lemma_recorded_stays(
    before: Seq<(EntryContent, u8)>,
    after: Seq<(EntryContent, u8)>,
    entry: EntryContent,
)
    requires
        extends(before, after),
        is_recorded(before, entry),
    ensures
        is_recorded(after, entry),
{
    let j = choose|j: int| 0 <= j < before.len() && (#[trigger] before[j]).0 == entry;
    assert(after.take(before.len() as int)[j] == after[j]);
    assert(after[j].0 == entry);
}

proof fn lemma_extends_twice(
    first: Seq<(EntryContent, u8)>,
    second: Seq<(EntryContent, u8)>,
    third: Seq<(EntryContent, u8)>,
)
    requires
        extends(first, second),
        extends(second, third),
    ensures
        extends(first, third),
{
    assert(third.take(first.len() as int) =~= second.take(first.len() as int)) by {
        assert forall|i: int| 0 <= i < first.len() implies third.take(first.len() as int)[i]
            == second.take(first.len() as int)[i] by {
            assert(third.take(second.len() as int)[i] == second[i]);
        }
    }
}

proof fn lemma_follows_are_next(
    next: Seq<Seq<char>>,
    seen: Set<Seq<char>>,
    follows: Seq<Seq<char>>,
    limit: usize,
)
    requires
        next.len() + follows.len() <= limit,
    ensures
        with_follows(next, seen, follows, limit).len() <= next.len() + follows.len(),
        forall|id: Seq<char>| #[trigger]
            next.contains(id) ==> with_follows(next, seen, follows, limit).contains(id),
        forall|id: Seq<char>| #[trigger]
            follows.contains(id) ==> seen.contains(id) || with_follows(
                next,
                seen,
                follows,
                limit,
            ).contains(id),
    decreases follows.len(),
{
    if follows.len() > 0 {
        let rest = follows.drop_last();
        let last = follows.last();
        let before = with_follows(next, seen, rest, limit);
        let after = with_follows(next, seen, follows, limit);
        lemma_follows_are_next(next, seen, rest, limit);
        assert forall|id: Seq<char>| #[trigger] before.contains(id) implies after.contains(id) by {
            lemma_push_contains(before, last, id);
        }
        assert forall|id: Seq<char>| #[trigger] follows.contains(id) implies seen.contains(id)
            || after.contains(id) by {
            assert(follows =~= rest.push(last));
            lemma_push_contains(rest, last, id);
            lemma_push_contains(before, last, id);
        }
    }
}

proof fn lemma_layer_extends(
    accounts: Seq<AccountContent>,
    config: ConfigContent,
    now: i64,
    walk: Walk,
    frontier: Seq<Seq<char>>,
    radius: u8,
    last: bool,
)
    ensures
        layer_walked(accounts, config, now, walk, frontier, radius, last) matches Ok(out)
            ==> extends(walk.records, out.records),
    decreases frontier.len(),
{
    if frontier.len() > 0 {
        if let Ok(step) = visited(accounts, config, now, walk, frontier[0], radius, last) {
            assert(extends(walk.records, step.records)) by {
                assert(step.records.take(walk.records.len() as int) =~= walk.records);
            }
            if !step.full {
                let rest = frontier.drop_first();
                lemma_layer_extends(accounts, config, now, step, rest, radius, last);
                if let Ok(out) = layer_walked(accounts, config, now, step, rest, radius, last) {
                    lemma_extends_twice(walk.records, step.records, out.records);
                }
            }
        }
    } else {
        assert(walk.records.take(walk.records.len() as int) =~= walk.records);
    }
}

proof fn lemma_walk_extends(
    accounts: Seq<AccountContent>,
    config: ConfigContent,
    now: i64,
    walk: Walk,
    radius: int,
    radius_end: u8,
)
    ensures
        walked(accounts, config, now, walk, radius, radius_end) matches Ok(out) ==> extends(
            walk.records,
            out.records,
        ),
    decreases radius_end - radius,
{
    let start = Walk { next: Seq::empty(), ..walk };
    let frontier = ascending_set(walk.next);
    let last = radius >= radius_end;
    lemma_layer_extends(accounts, config, now, start, frontier, radius as u8, last);
    if let Ok(mid) = layer_walked(accounts, config, now, start, frontier, radius as u8, last) {
        if !mid.full && !last {
            lemma_walk_extends(accounts, config, now, mid, radius + 1, radius_end);
            if let Ok(out) = walked(accounts, config, now, mid, radius + 1, radius_end) {
                lemma_extends_twice(walk.records, mid.records, out.records);
            }
        }
    }
}

proof fn lemma_layer_reaches(
    accounts: Seq<AccountContent>,
    config: ConfigContent,
    now: i64,
    walk: Walk,
    frontier: Seq<Seq<char>>,
    radius: u8,
    last: bool,
    out: Walk,
)
    requires
        layer_walked(accounts, config, now, walk, frontier, radius, last) == Ok::<
            Walk,
            ErrorContent,
        >(out),
        !walk.full,
        walk.seen.finite(),
        follow_count(out.records) <= config.search_max_frontier,
        follow_count(out.records) + 1 < config.search_max_visited,
        walk.seen.len() + frontier.len() + walk.next.len() <= 1 + follow_count(walk.records),
        walk.next.len() <= follow_count(walk.records),
        settled(accounts, now, walk),
    ensures
        !out.full,
        out.seen.finite(),
        out.seen.len() + out.next.len() <= 1 + follow_count(out.records),
        out.next.len() <= follow_count(out.records),
        settled(accounts, now, out),
        forall|id: Seq<char>| #[trigger] walk.seen.contains(id) ==> out.seen.contains(id),
        forall|id: Seq<char>| #[trigger] frontier.contains(id) ==> out.seen.contains(id),
        forall|id: Seq<char>| #[trigger] walk.next.contains(id) ==> out.next.contains(id),
        forall|i: int, id: Seq<char>|
            #![trigger out.records[i].0.follows.contains(id)]
            walk.records.len() <= i < out.records.len() && !last
                && out.records[i].0.follows.contains(id) ==> out.seen.contains(id)
                || out.next.contains(id),
        forall|i: int|
            walk.records.len() <= i < out.records.len() ==> (#[trigger] out.records[i]).1 == radius,
        extends(walk.records, out.records),
    decreases frontier.len(),
{
    lemma_layer_extends(accounts, config, now, walk, frontier, radius, last);
    lemma_count_grows(out.records, walk.records.len() as int);
    if frontier.len() > 0 {
        let id = frontier[0];
        let rest = frontier.drop_first();
        let step = visited(accounts, config, now, walk, id, radius, last)->Ok_0;
        assert(!(walk.seen.len() >= config.search_max_visited));
        lemma_layer_extends(accounts, config, now, step, rest, radius, last);
        assert(extends(walk.records, step.records)) by {
            assert(step.records.take(walk.records.len() as int) =~= walk.records);
        }
        assert(!step.full);
        lemma_count_grows(out.records, step.records.len() as int);
        if !walk.seen.contains(id) {
            if let Ok(Some(entry)) = searched(accounts, id, now) {
                assert(step.records.drop_last() =~= walk.records);
                assert(follow_count(step.records) == follow_count(walk.records)
                    + entry.follows.len());
                lemma_follows_are_next(
                    walk.next,
                    step.seen,
                    entry.follows,
                    config.search_max_frontier,
                );
                assert(step.records[walk.records.len() as int].0 == entry);
                assert(is_recorded(step.records, entry));
            }
        }
        assert(settled(accounts, now, step)) by {
            assert forall|other: Seq<char>| #[trigger] step.seen.contains(other) implies (searched(
                accounts,
                other,
                now,
            ) matches Ok(Some(entry)) ==> is_recorded(step.records, entry)) by {
                if walk.seen.contains(other) {
                    if let Ok(Some(entry)) = searched(accounts, other, now) {
                        lemma_recorded_stays(walk.records, step.records, entry);
                    }
                }
            }
        }
        lemma_layer_reaches(accounts, config, now, step, rest, radius, last, out);
        assert forall|other: Seq<char>| #[trigger] walk.seen.contains(other) implies
            out.seen.contains(other) by {
            assert(step.seen.contains(other));
        }
        assert forall|other: Seq<char>| #[trigger] walk.next.contains(other) implies
            out.next.contains(other) by {
            assert(step.next.contains(other));
        }
        assert forall|other: Seq<char>| #[trigger] frontier.contains(other) implies
            out.seen.contains(other) by {
            let k = choose|k: int| 0 <= k < frontier.len() && frontier[k] == other;
            if k > 0 {
                assert(rest[k - 1] == other);
                assert(rest.contains(other));
            } else {
                assert(step.seen.contains(id));
            }
        }
        assert forall|i: int, other: Seq<char>|
            #![trigger out.records[i].0.follows.contains(other)]
            walk.records.len() <= i < out.records.len() && !last
                && out.records[i].0.follows.contains(other) implies out.seen.contains(other)
            || out.next.contains(other) by {
            if i < step.records.len() {
                assert(out.records.take(step.records.len() as int)[i] == out.records[i]);
                assert(step.records[i].0.follows.contains(other));
                assert(step.seen.contains(other) || step.next.contains(other));
            }
        }
        assert forall|i: int| walk.records.len() <= i < out.records.len() implies (
        #[trigger] out.records[i]).1 == radius by {
            if i < step.records.len() {
                assert(out.records.take(step.records.len() as int)[i] == out.records[i]);
            }
        }
    }
}

proof fn lemma_walk_reaches(
    accounts: Seq<AccountContent>,
    config: ConfigContent,
    now: i64,
    walk: Walk,
    radius: int,
    radius_end: u8,
    out: Walk,
)
    requires
        walked(accounts, config, now, walk, radius, radius_end) == Ok::<Walk, ErrorContent>(out),
        0 <= radius <= radius_end,
        !walk.full,
        walk.seen.finite(),
        follow_count(out.records) <= config.search_max_frontier,
        follow_count(out.records) + 1 < config.search_max_visited,
        walk.seen.len() + walk.next.len() <= 1 + follow_count(walk.records),
        settled(accounts, now, walk),
    ensures
        settled(accounts, now, out),
        forall|id: Seq<char>| #[trigger] walk.seen.contains(id) ==> out.seen.contains(id),
        forall|id: Seq<char>| #[trigger] walk.next.contains(id) ==> out.seen.contains(id),
        forall|i: int, id: Seq<char>|
            #![trigger out.records[i].0.follows.contains(id)]
            walk.records.len() <= i < out.records.len() && out.records[i].1 < radius_end
                && out.records[i].0.follows.contains(id) ==> out.seen.contains(id),
    decreases radius_end - radius,
{
    let start = Walk { next: Seq::empty(), ..walk };
    let frontier = ascending_set(walk.next);
    let last = radius >= radius_end;
    let mid = layer_walked(accounts, config, now, start, frontier, radius as u8, last)->Ok_0;
    lemma_ascending_set_exists(walk.next);
    lemma_set_is_no_longer(walk.next);
    lemma_layer_extends(accounts, config, now, start, frontier, radius as u8, last);
    if !mid.full && !last {
        lemma_walk_extends(accounts, config, now, mid, radius + 1, radius_end);
        lemma_count_grows(out.records, mid.records.len() as int);
    }
    assert(follow_count(mid.records) <= follow_count(out.records));
    lemma_layer_reaches(accounts, config, now, start, frontier, radius as u8, last, mid);
    assert forall|id: Seq<char>| #[trigger] walk.next.contains(id) implies mid.seen.contains(
        id,
    ) by {
        assert(frontier.contains(id));
    }
    if !last {
        lemma_walk_reaches(accounts, config, now, mid, radius + 1, radius_end, out);
        assert forall|i: int, id: Seq<char>|
            #![trigger out.records[i].0.follows.contains(id)]
            walk.records.len() <= i < out.records.len() && out.records[i].1 < radius_end
                && out.records[i].0.follows.contains(id) implies out.seen.contains(id) by {
            if i < mid.records.len() {
                assert(out.records.take(mid.records.len() as int)[i] == out.records[i]);
                assert(mid.records[i].0.follows.contains(id));
                assert(mid.seen.contains(id) || mid.next.contains(id));
            }
        }
    }
}

proof fn lemma_set_is_no_longer(items: Seq<Seq<char>>)
    ensures
        ascending_set(items).len() <= items.len(),
{
    let set = ascending_set(items);
    lemma_ascending_set_exists(items);
    assert(set.no_duplicates());
    set.unique_seq_to_set();
    assert(set.to_set() =~= items.to_set());
    vstd::seq_lib::seq_to_set_is_finite(items);
    items.lemma_cardinality_of_set();
}

/// A search of the cached graph leaves out nobody that it can reach. While it stays within
/// its bounds, whoever an account found within the radius follows is found too, if anything
/// is known of them, and the searcher is.
pub proof fn law_followed_accounts_are_found(
    accounts: Seq<AccountContent>,
    config: ConfigContent,
    now: i64,
    searcher: Seq<char>,
    radius_end: u8,
    records: Seq<(EntryContent, u8)>,
    i: int,
    id: Seq<char>,
    entry: EntryContent,
)
    requires
        graph_records(accounts, config, now, searcher, radius_end) == Ok::<
            Seq<(EntryContent, u8)>,
            ErrorContent,
        >(records),
        follow_count(records) <= config.search_max_frontier,
        follow_count(records) + 1 < config.search_max_visited,
        searched(accounts, id, now) == Ok::<Option<EntryContent>, ErrorContent>(Some(entry)),
    ensures
        parsed_id(searcher) == Ok::<Seq<char>, ErrorContent>(id) ==> exists|j: int|
            0 <= j < records.len() && (#[trigger] records[j]).0 == entry,
        0 <= i < records.len() && records[i].1 < radius_end && records[i].0.follows.contains(id)
            ==> exists|j: int| 0 <= j < records.len() && (#[trigger] records[j]).0 == entry,
{
    let own = parsed_id(searcher)->Ok_0;
    let start = walk_from(own);
    let out = walked(accounts, config, now, start, 0, radius_end)->Ok_0;
    lemma_walk_reaches(accounts, config, now, start, 0, radius_end, out);
    assert(start.next[0] == own);
    assert(start.next.contains(own));
    if parsed_id(searcher) == Ok::<Seq<char>, ErrorContent>(id) {
        assert(out.seen.contains(id));
        assert(is_recorded(records, entry));
    }
    if 0 <= i < records.len() && records[i].1 < radius_end && records[i].0.follows.contains(id) {
        assert(out.records[i].0.follows.contains(id));
        assert(out.seen.contains(id));
        assert(is_recorded(records, entry));
    }
}

} // verus!
