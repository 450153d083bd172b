//! Walking a searcher's graph layer by layer, and asking accounts' own relays for
//! what the searcher's relays do not hold.

use crate::collections::{copy_list, Key};
use crate::directory::app_entry::parse_account_id_hex;
use crate::directory::merge::{
    either_rank, lemma_text_rank, number_rank, rank_numbers, rank_texts, ranks_agree, text_rank,
};
use crate::directory::search::{
    admitted, empty_layer, Admitted, LayerDepth, NextLayer, UserSearchParams,
    OFF_GRAPH_SEARCH_RADIUS,
};
use crate::order::{
    is_sorted_by, is_weak_order, lemma_same_elements, lemma_sorted_by, lemma_sorted_content,
    sort_stable, sorted_by, Ordered,
};
use crate::text::public_key_hex;
use vstd::hash_set::StringHashSet;
use vstd::prelude::*;

verus! {

/// Write relays taken from any one account's published list.
pub const SEARCH_MAX_WRITE_RELAYS_PER_AUTHOR: usize = 4;

/// Write relays asked while one batch is resolved.
pub const SEARCH_MAX_WRITE_RELAYS_PER_BATCH: usize = 8;

/// Where a walk outward from a searcher stands: the layer to be searched next, who
/// was met, and whether the walk left the searcher's own graph for configured
/// seeds.
pub struct GraphWalk {
    pub frontier: Vec<String>,
    pub seen: StringHashSet,
    pub off_graph: bool,
    pub radius: u16,
    pub radius_end: u8,
}

/// The content of a [`GraphWalk`].
#[verifier::ext_equal]
pub struct WalkContent {
    pub frontier: Seq<Seq<char>>,
    pub seen: Set<Seq<char>>,
    pub off_graph: bool,
    pub radius: u16,
    pub radius_end: u8,
}

impl View for GraphWalk {
    type V = WalkContent;

    open spec fn view(&self) -> WalkContent {
        WalkContent {
            frontier: self.frontier.deep_view(),
            seen: self.seen@,
            off_graph: self.off_graph,
            radius: self.radius,
            radius_end: self.radius_end,
        }
    }
}

/// The depth of the layer to be searched next, if there is one.
pub open spec fn next_depth(walk: WalkContent) -> Option<LayerDepth> {
    if walk.frontier.len() == 0 || walk.radius > walk.radius_end {
        None
    } else {
        Some(
            LayerDepth {
                hop: walk.radius as u8,
                reported: if walk.off_graph {
                    OFF_GRAPH_SEARCH_RADIUS
                } else {
                    walk.radius as u8
                },
            },
        )
    }
}

/// The configured seeds that are identities and were not met, with who was met.
pub open spec fn seeds_from(seen: Set<Seq<char>>, seeds: Seq<Seq<char>>) -> (
    Seq<Seq<char>>,
    Set<Seq<char>>,
)
    decreases seeds.len(),
{
    if seeds.len() == 0 {
        (Seq::empty(), seen)
    } else {
        let (frontier, seen) = seeds_from(seen, seeds.drop_last());
        match public_key_hex(seeds.last()) {
            Some(id) => if seen.contains(id) {
                (frontier, seen)
            } else {
                (frontier.push(id), seen.insert(id))
            },
            None => (frontier, seen),
        }
    }
}

/// The walk after a layer led to the next one. A searcher whose first layer leads
/// nowhere is given the configured seeds, and is off their own graph from there on.
pub open spec fn layer_completed(walk: WalkContent, next: Seq<Seq<char>>, seeds: Seq<Seq<char>>)
    -> WalkContent {
    let radius = (walk.radius + 1) as u16;
    if walk.radius == 0 && next.len() == 0 {
        let (frontier, seen) = seeds_from(walk.seen, seeds);
        WalkContent { frontier, seen, off_graph: frontier.len() > 0, radius, ..walk }
    } else {
        WalkContent { frontier: next, radius, ..walk }
    }
}

impl GraphWalk {
    pub fn new(searcher_account_id_hex: String, radius_end: u8) -> (walk: Self)
        ensures
            walk@ == (WalkContent {
                frontier: seq![searcher_account_id_hex@],
                seen: Set::empty().insert(searcher_account_id_hex@),
                off_graph: false,
                radius: 0,
                radius_end,
            }),
    {
        let ghost id = searcher_account_id_hex@;
        let mut seen = StringHashSet::new();
        let _ = seen.insert(searcher_account_id_hex.clone());
        let walk = GraphWalk {
            frontier: vec![searcher_account_id_hex],
            seen,
            off_graph: false,
            radius: 0,
            radius_end,
        };
        assert(walk@.frontier =~= seq![id]);
        walk
    }

    /// The depth of the layer to be searched next. `None` once the walk is over.
    pub fn depth(&self) -> (depth: Option<LayerDepth>)
        ensures
            depth == next_depth(self@),
    {
        if self.frontier.len() == 0 || self.radius > self.radius_end as u16 {
            return None;
        }
        let hop: u8 = self.radius as u8;
        Some(
            LayerDepth {
                hop,
                reported: if self.off_graph {
                    OFF_GRAPH_SEARCH_RADIUS
                } else {
                    hop
                },
            },
        )
    }

    /// Begins the layer beyond a depth. Accounts that the caller names as close to
    /// the searcher come first, so that a long list of follows cannot crowd them
    /// out.
    pub fn begin_layer(&mut self, depth: LayerDepth, params: &UserSearchParams) -> (layer:
        NextLayer)
        ensures
            ({
                let taken = if depth.hop == 0 {
                    admitted(empty_layer(), old(self)@.seen, params.radius_one_seeds.deep_view())
                } else {
                    Admitted { layer: empty_layer(), seen: old(self)@.seen, all: true }
                };
                &&& layer.deep_view() == taken.layer
                &&& final(self)@ == (WalkContent { seen: taken.seen, ..old(self)@ })
            }),
    {
        let mut layer = NextLayer::new();
        if depth.hop == 0 {
            let _ = layer.take_in(copy_list(&params.radius_one_seeds), &mut self.seen);
        }
        layer
    }

    /// The configured seeds that are identities and were not met. One that is not an
    /// identity costs itself alone.
    fn fallback_seed_frontier(&mut self, seeds: &Vec<String>) -> (frontier: Vec<String>)
        ensures
            (frontier.deep_view(), final(self)@.seen) == seeds_from(
                old(self)@.seen,
                seeds.deep_view(),
            ),
            final(self)@ == (WalkContent { seen: final(self)@.seen, ..old(self)@ }),
    {
        let ghost start = self@;
        let ghost all = seeds.deep_view();
        let mut frontier: Vec<String> = Vec::new();
        let mut i: usize = 0;
        assert(all.take(0) =~= Seq::<Seq<char>>::empty());
        assert(frontier.deep_view() =~= Seq::<Seq<char>>::empty());
        while i < seeds.len()
            invariant
                i <= seeds@.len(),
                all == seeds.deep_view(),
                (frontier.deep_view(), self@.seen) == seeds_from(start.seen, all.take(i as int)),
                self@ == (WalkContent { seen: self@.seen, ..start }),
            decreases seeds.len() - i,
        {
            assert(all.take(i + 1).drop_last() =~= all.take(i as int));
            assert(all.take(i + 1).last() == seeds@[i as int]@);
            let ghost before = frontier.deep_view();
            let ghost seen = self@.seen;
            if let Ok(id) = parse_account_id_hex(seeds[i].as_str()) {
                let ghost added = id@;
                if self.seen.insert(id.clone()) {
                    frontier.push(id);
                    assert(frontier.deep_view() =~= before.push(added));
                } else {
                    assert(self@.seen =~= seen);
                }
            }
            i += 1;
        }
        assert(all.take(all.len() as int) =~= all);
        frontier
    }

    /// Goes on to the layer that the last one led to.
    pub fn complete(&mut self, next: Vec<String>, seeds: &Vec<String>)
        requires
            next_depth(old(self)@) is Some,
        ensures
            final(self)@ == layer_completed(old(self)@, next.deep_view(), seeds.deep_view()),
    {
        let ghost start = self@;
        if self.radius == 0 && next.len() == 0 {
            let frontier = self.fallback_seed_frontier(seeds);
            self.off_graph = frontier.len() > 0;
            self.frontier = frontier;
        } else {
            self.frontier = next;
        }
        self.radius = self.radius + 1;
        assert(self@ =~= layer_completed(start, next.deep_view(), seeds.deep_view()));
    }
}

/// A searcher with any graph of their own is never given the configured seeds; one
/// without is, and every account they lead to is reported as off the graph.
pub proof fn law_seeds_are_a_last_resort(
    walk: WalkContent,
    next: Seq<Seq<char>>,
    seeds: Seq<Seq<char>>,
)
    requires
        next_depth(walk) is Some,
    ensures
        ({
            let after = layer_completed(walk, next, seeds);
            &&& next.len() > 0 || walk.radius > 0 ==> after.frontier == next && after.off_graph
                == walk.off_graph
            &&& next_depth(after) matches Some(depth) ==> depth.hop == walk.radius + 1 && (
            depth.reported == depth.hop || depth.reported == OFF_GRAPH_SEARCH_RADIUS)
            &&& walk.off_graph && next.len() > 0 ==> after.off_graph
            &&& walk.radius == 0 && next.len() == 0 ==> (next_depth(after) matches Some(depth)
                ==> depth.reported == OFF_GRAPH_SEARCH_RADIUS)
        }),
{
}

/// The accounts that name a relay as one they write to.
#[derive(Debug, PartialEq, Eq)]
pub struct RelayAuthors {
    pub relay: String,
    pub authors: Vec<String>,
}

/// The content of a [`RelayAuthors`].
#[verifier::ext_equal]
pub struct AuthorsContent {
    pub relay: Seq<char>,
    pub authors: Seq<Seq<char>>,
}

impl DeepView for RelayAuthors {
    type V = AuthorsContent;

    open spec fn deep_view(&self) -> AuthorsContent {
        AuthorsContent { relay: self.relay@, authors: self.authors.deep_view() }
    }
}

/// The position of a relay, or the number of relays.
pub open spec fn relay_position(groups: Seq<AuthorsContent>, relay: Seq<char>) -> int
    decreases groups.len(),
{
    if groups.len() == 0 {
        0
    } else if groups[0].relay == relay {
        0
    } else {
        1 + relay_position(groups.drop_first(), relay)
    }
}

/// The relays after one more account named one of them.
pub open spec fn with_author(groups: Seq<AuthorsContent>, relay: Seq<char>, author: Seq<char>)
    -> Seq<AuthorsContent> {
    let i = relay_position(groups, relay);
    if i < groups.len() {
        groups.update(i, AuthorsContent { relay, authors: groups[i].authors.push(author) })
    } else {
        groups.push(AuthorsContent { relay, authors: seq![author] })
    }
}

/// The relays after one more account named some of them.
pub open spec fn with_author_of(
    groups: Seq<AuthorsContent>,
    relays: Seq<Seq<char>>,
    author: Seq<char>,
) -> Seq<AuthorsContent>
    decreases relays.len(),
{
    if relays.len() == 0 {
        groups
    } else {
        with_author(with_author_of(groups, relays.drop_last(), author), relays.last(), author)
    }
}

/// The relays of an account's list that are used.
pub open spec fn used_relays(relays: Seq<Seq<char>>) -> Seq<Seq<char>> {
    if relays.len() <= SEARCH_MAX_WRITE_RELAYS_PER_AUTHOR {
        relays
    } else {
        relays.take(SEARCH_MAX_WRITE_RELAYS_PER_AUTHOR as int)
    }
}

/// The relays that accounts write to, in the order in which they are met, each with
/// the accounts that name it.
pub open spec fn by_relay(lists: Seq<(Seq<char>, Seq<Seq<char>>)>) -> Seq<AuthorsContent>
    decreases lists.len(),
{
    if lists.len() == 0 {
        Seq::empty()
    } else {
        with_author_of(by_relay(lists.drop_last()), used_relays(lists.last().1), lists.last().0)
    }
}

/// How two relays compare: the one that answers for more accounts first, then by
/// name.
pub open spec fn coverage_rank(a: AuthorsContent, b: AuthorsContent) -> int {
    either_rank(
        number_rank(b.authors.len() as u64, a.authors.len() as u64),
        text_rank(a.relay, b.relay),
    )
}

pub open spec fn coverage_lt() -> spec_fn(AuthorsContent, AuthorsContent) -> bool {
    |a: AuthorsContent, b: AuthorsContent| coverage_rank(a, b) < 0
}

/// The relays to ask: those that answer for the most accounts, as many as may be
/// asked.
pub open spec fn relays_to_ask(lists: Seq<(Seq<char>, Seq<Seq<char>>)>) -> Seq<AuthorsContent> {
    let sorted = sorted_by(by_relay(lists), coverage_lt());
    if sorted.len() <= SEARCH_MAX_WRITE_RELAYS_PER_BATCH {
        sorted
    } else {
        sorted.take(SEARCH_MAX_WRITE_RELAYS_PER_BATCH as int)
    }
}

proof fn lemma_coverage_rank(a: AuthorsContent, b: AuthorsContent, c: AuthorsContent)
    ensures
        ranks_agree(
            coverage_rank(a, b),
            coverage_rank(b, c),
            coverage_rank(a, c),
            coverage_rank(b, a),
        ),
{
    lemma_text_rank(a.relay, b.relay, c.relay);
}

pub proof fn lemma_coverage_weak_order()
    ensures
        is_weak_order(coverage_lt()),
{
    let lt = coverage_lt();
    assert forall|a: AuthorsContent, b: AuthorsContent| #[trigger] lt(a, b) implies !lt(b, a) by {
        lemma_coverage_rank(a, b, b);
    }
    assert forall|a: AuthorsContent, b: AuthorsContent, c: AuthorsContent|
        #![trigger lt(a, b), lt(b, c)]
        !lt(a, b) && !lt(b, c) implies !lt(a, c) by {
        lemma_coverage_rank(a, b, c);
    }
}

impl Ordered for RelayAuthors {
    open spec fn before(&self, other: &Self) -> bool {
        coverage_rank(self.deep_view(), other.deep_view()) < 0
    }

    proof fn order_laws(first: &Self, second: &Self, third: &Self) {
        lemma_coverage_rank(first.deep_view(), second.deep_view(), third.deep_view());
        lemma_coverage_rank(first.deep_view(), second.deep_view(), second.deep_view());
    }

    fn precedes(&self, other: &Self) -> (earlier: bool) {
        let by_coverage: i8 = rank_numbers(other.authors.len() as u64, self.authors.len() as u64);
        if by_coverage != 0 {
            return by_coverage < 0;
        }
        rank_texts(&self.relay, &other.relay) < 0
    }
}

pub open spec fn authors_content() -> spec_fn(RelayAuthors) -> AuthorsContent {
    |group: RelayAuthors| group.deep_view()
}

proof fn lemma_relay_position(groups: Seq<AuthorsContent>, relay: Seq<char>)
    ensures
        0 <= relay_position(groups, relay) <= groups.len(),
        relay_position(groups, relay) < groups.len() ==> groups[relay_position(
            groups,
            relay,
        )].relay == relay,
    decreases groups.len(),
{
    if groups.len() > 0 && groups[0].relay != relay {
        lemma_relay_position(groups.drop_first(), relay);
    }
}

fn find_relay(groups: &Vec<RelayAuthors>, relay: &String) -> (position: usize)
    ensures
        position == relay_position(groups.deep_view(), relay@),
        position <= groups@.len(),
{
    let ghost all = groups.deep_view();
    let mut i: usize = 0;
    assert(all.skip(0) =~= all);
    while i < groups.len()
        invariant
            i <= groups@.len(),
            all == groups.deep_view(),
            relay_position(all, relay@) == i + relay_position(all.skip(i as int), relay@),
        decreases groups.len() - i,
    {
        assert(all.skip(i as int)[0] == groups@[i as int].deep_view());
        assert(all.skip(i as int).drop_first() =~= all.skip(i + 1));
        if groups[i].relay.same(relay) {
            return i;
        }
        i += 1;
    }
    i
}

fn add_author(groups: &mut Vec<RelayAuthors>, relay: &String, author: &String)
    ensures
        final(groups).deep_view() == with_author(old(groups).deep_view(), relay@, author@),
{
    let ghost before = groups.deep_view();
    proof {
        lemma_relay_position(before, relay@);
    }
    let i: usize = find_relay(groups, relay);
    if i < groups.len() {
        let ghost held = groups@;
        let mut group = groups.remove(i);
        let ghost authors = group.authors.deep_view();
        group.authors.push(author.clone());
        assert(group.authors.deep_view() =~= authors.push(author@));
        groups.insert(i, group);
        assert(groups@ =~= held.update(i as int, group));
        assert(groups.deep_view() =~= with_author(before, relay@, author@));
    } else {
        let group = RelayAuthors { relay: relay.clone(), authors: vec![author.clone()] };
        assert(group.authors.deep_view() =~= seq![author@]);
        let ghost added = group.deep_view();
        groups.push(group);
        assert(groups.deep_view() =~= before.push(added));
    }
}

/// Chooses the relays to ask for the profiles of accounts, given the write relays
/// that each of them published: a few of any one list, and of all of them those
/// that answer for the most accounts.
pub fn choose_write_relays(lists: &Vec<(String, Vec<String>)>) -> (plan: Vec<RelayAuthors>)
    ensures
        plan.deep_view() == relays_to_ask(lists.deep_view()),
{
    let ghost all = lists.deep_view();
    let mut groups: Vec<RelayAuthors> = Vec::new();
    let mut i: usize = 0;
    assert(all.take(0) =~= Seq::<(Seq<char>, Seq<Seq<char>>)>::empty());
    assert(groups.deep_view() =~= Seq::<AuthorsContent>::empty());
    while i < lists.len()
        invariant
            i <= lists@.len(),
            all == lists.deep_view(),
            groups.deep_view() == by_relay(all.take(i as int)),
        decreases lists.len() - i,
    {
        assert(all.take(i + 1).drop_last() =~= all.take(i as int));
        assert(all.take(i + 1).last() == lists@[i as int].deep_view());
        let ghost before = groups.deep_view();
        let author = &lists[i].0;
        let relays = &lists[i].1;
        let ghost named = relays.deep_view();
        let ghost used = used_relays(named);
        let mut k: usize = 0;
        assert(used.take(0) =~= Seq::<Seq<char>>::empty());
        while k < relays.len() && k < SEARCH_MAX_WRITE_RELAYS_PER_AUTHOR
            invariant
                k <= used.len(),
                named == relays.deep_view(),
                used == used_relays(named),
                groups.deep_view() == with_author_of(before, used.take(k as int), author@),
            decreases relays.len() - k,
        {
            assert(used.take(k + 1).drop_last() =~= used.take(k as int));
            assert(used.take(k + 1).last() == relays@[k as int]@);
            add_author(&mut groups, &relays[k], author);
            k += 1;
        }
        assert(used.take(k as int) =~= used);
        i += 1;
    }
    assert(all.take(all.len() as int) =~= all);
    let ghost given = groups@;
    assert(given.map_values(authors_content()) =~= groups.deep_view());
    let mut plan = sort_stable(groups);
    proof {
        lemma_sorted_content(given, authors_content(), coverage_lt());
        assert(plan@.map_values(authors_content()) =~= plan.deep_view());
    }
    let ghost sorted = plan.deep_view();
    plan.truncate(SEARCH_MAX_WRITE_RELAYS_PER_BATCH);
    assert(plan.deep_view() =~= relays_to_ask(lists.deep_view()));
    plan
}

/// Whether an account published a relay among those of its list that are used.
pub open spec fn published_by(
    lists: Seq<(Seq<char>, Seq<Seq<char>>)>,
    relay: Seq<char>,
    author: Seq<char>,
) -> bool {
    exists|k: int|
        0 <= k < lists.len() && (#[trigger] lists[k]).0 == author && used_relays(
            lists[k].1,
        ).contains(relay)
}

/// Every account of every relay published that relay.
pub open spec fn only_publishers(
    groups: Seq<AuthorsContent>,
    lists: Seq<(Seq<char>, Seq<Seq<char>>)>,
) -> bool {
    forall|i: int, j: int|
        #![trigger groups[i].authors[j]]
        0 <= i < groups.len() && 0 <= j < groups[i].authors.len() ==> published_by(
            lists,
            groups[i].relay,
            groups[i].authors[j],
        )
}

proof fn lemma_with_author_of(
    groups: Seq<AuthorsContent>,
    relays: Seq<Seq<char>>,
    author: Seq<char>,
    lists: Seq<(Seq<char>, Seq<Seq<char>>)>,
)
    requires
        only_publishers(groups, lists),
        forall|r: Seq<char>| #[trigger] relays.contains(r) ==> published_by(lists, r, author),
    ensures
        only_publishers(with_author_of(groups, relays, author), lists),
    decreases relays.len(),
{
    if relays.len() > 0 {
        let rest = relays.drop_last();
        assert forall|r: Seq<char>| #[trigger] rest.contains(r) implies published_by(
            lists,
            r,
            author,
        ) by {
            let k = choose|k: int| 0 <= k < rest.len() && rest[k] == r;
            assert(relays[k] == r);
            assert(relays.contains(r));
        }
        lemma_with_author_of(groups, rest, author, lists);
        let before = with_author_of(groups, rest, author);
        lemma_relay_position(before, relays.last());
        assert(relays.contains(relays.last()));
        let p = relay_position(before, relays.last());
        let after = with_author_of(groups, relays, author);
        assert forall|i: int, j: int|
            #![trigger after[i].authors[j]]
            0 <= i < after.len() && 0 <= j < after[i].authors.len() implies published_by(
            lists,
            after[i].relay,
            after[i].authors[j],
        ) by {
            if i < before.len() && j < before[i].authors.len() {
                assert(published_by(lists, before[i].relay, before[i].authors[j]));
            }
        }
    }
}

proof fn lemma_by_relay(lists: Seq<(Seq<char>, Seq<Seq<char>>)>)
    ensures
        only_publishers(by_relay(lists), lists),
    decreases lists.len(),
{
    if lists.len() > 0 {
        let rest = lists.drop_last();
        lemma_by_relay(rest);
        let groups = by_relay(rest);
        assert forall|i: int, j: int|
            #![trigger groups[i].authors[j]]
            0 <= i < groups.len() && 0 <= j < groups[i].authors.len() implies published_by(
            lists,
            groups[i].relay,
            groups[i].authors[j],
        ) by {
            assert(published_by(rest, groups[i].relay, groups[i].authors[j]));
            let k = choose|k: int|
                0 <= k < rest.len() && (#[trigger] rest[k]).0 == groups[i].authors[j]
                    && used_relays(rest[k].1).contains(groups[i].relay);
            assert(lists[k] == rest[k]);
        }
        let last = lists.len() - 1;
        assert forall|r: Seq<char>| #[trigger]
            used_relays(lists.last().1).contains(r) implies published_by(
            lists,
            r,
            lists.last().0,
        ) by {
            assert(lists[last].0 == lists.last().0);
        }
        lemma_with_author_of(groups, used_relays(lists.last().1), lists.last().0, lists);
    }
}

/// However many relays accounts name, a bounded number is asked, and those that
/// answer for the most accounts are. A relay is asked about nobody who did not
/// publish it.
pub proof fn law_relays_learn_of_their_authors_alone(lists: Seq<(Seq<char>, Seq<Seq<char>>)>)
    ensures
        relays_to_ask(lists).len() <= SEARCH_MAX_WRITE_RELAYS_PER_BATCH,
        is_sorted_by(relays_to_ask(lists), coverage_lt()),
        only_publishers(relays_to_ask(lists), lists),
{
    let groups = by_relay(lists);
    let lt = coverage_lt();
    let sorted = sorted_by(groups, lt);
    lemma_coverage_weak_order();
    lemma_sorted_by(groups, lt);
    lemma_by_relay(lists);
    lemma_same_elements(sorted, groups);
    let asked = relays_to_ask(lists);
    assert forall|i: int, j: int| 0 <= i < j < asked.len() implies !lt(
        #[trigger] asked[j],
        #[trigger] asked[i],
    ) by {
        assert(asked[i] == sorted[i] && asked[j] == sorted[j]);
    }
    assert forall|i: int, j: int|
        #![trigger asked[i].authors[j]]
        0 <= i < asked.len() && 0 <= j < asked[i].authors.len() implies published_by(
        lists,
        asked[i].relay,
        asked[i].authors[j],
    ) by {
        assert(asked[i] == sorted[i]);
        assert(sorted.contains(sorted[i]));
        assert(groups.contains(sorted[i]));
        let k = choose|k: int| 0 <= k < groups.len() && groups[k] == sorted[i];
        assert(published_by(lists, groups[k].relay, groups[k].authors[j]));
    }
}

} // verus!
