//! How a search query matches an account, and how results are ranked.

use crate::directory::entry::{
    copy_optional, EntryContent, ProfileContent, UserDirectoryRecord, UserProfileMetadata,
};
use crate::directory::merge::{
    either_rank, lemma_text_rank, number_rank, rank_numbers, rank_texts, ranks_agree, text_rank,
};
use crate::order::{
    is_sorted_by, is_weak_order, lemma_sorted_by, lemma_sorted_content,
    sort_stable, sorted_by, Ordered,
};
use crate::text::{lowercase_text, lowercased};
use vstd::prelude::*;

verus! {

/// The part of an account that a query matched, the most telling first.
#[derive(Clone, Copy, Debug, PartialEq, Eq, PartialOrd, Ord, Structural)]
pub enum MatchedField {
    Name,
    DisplayName,
    Nip05,
    About,
    Npub,
    AccountId,
}

/// How well a query matched, the best first.
#[derive(Clone, Copy, Debug, PartialEq, Eq, PartialOrd, Ord, Structural)]
pub enum MatchQuality {
    Exact,
    Prefix,
    Contains,
}

impl MatchedField {
    pub open spec fn place(self) -> u64 {
        match self {
            MatchedField::Name => 0,
            MatchedField::DisplayName => 1,
            MatchedField::Nip05 => 2,
            MatchedField::About => 3,
            MatchedField::Npub => 4,
            MatchedField::AccountId => 5,
        }
    }

    fn to_place(self) -> (place: u64)
        ensures
            place == self.place(),
    {
        match self {
            MatchedField::Name => 0,
            MatchedField::DisplayName => 1,
            MatchedField::Nip05 => 2,
            MatchedField::About => 3,
            MatchedField::Npub => 4,
            MatchedField::AccountId => 5,
        }
    }
}

impl MatchQuality {
    pub open spec fn place(self) -> u64 {
        match self {
            MatchQuality::Exact => 0,
            MatchQuality::Prefix => 1,
            MatchQuality::Contains => 2,
        }
    }

    fn to_place(self) -> (place: u64)
        ensures
            place == self.place(),
    {
        match self {
            MatchQuality::Exact => 0,
            MatchQuality::Prefix => 1,
            MatchQuality::Contains => 2,
        }
    }
}

/// What a query matched of an account, and how well.
#[derive(Clone, Copy, Debug, PartialEq, Eq, Structural)]
pub struct SearchMatch {
    pub field: MatchedField,
    pub quality: MatchQuality,
}

/// Whether the bytes of a text, from a position on, begin with those of another.
pub open spec fn occurs_at(text: Seq<u8>, part: Seq<u8>, at: int) -> bool {
    &&& 0 <= at
    &&& at + part.len() <= text.len()
    &&& text.subrange(at, at + part.len()) == part
}

/// How a text matches a query: as a whole, at its start, or anywhere.
pub open spec fn quality_of(text: Seq<char>, query: Seq<char>) -> Option<MatchQuality> {
    let bytes = vstd::utf8::encode_utf8(text);
    let part = vstd::utf8::encode_utf8(query);
    if bytes == part {
        Some(MatchQuality::Exact)
    } else if occurs_at(bytes, part, 0) {
        Some(MatchQuality::Prefix)
    } else if exists|at: int| occurs_at(bytes, part, at) {
        Some(MatchQuality::Contains)
    } else {
        None
    }
}

/// Whether the bytes of a text, from a position on, begin with those of another.
fn part_at(text: &[u8], part: &[u8], at: usize) -> (found: bool)
    requires
        at + part@.len() <= text@.len(),
    ensures
        found == occurs_at(text@, part@, at as int),
{
    let total: usize = text.len();
    let mut i: usize = 0;
    while i < part.len()
        invariant
            total == text@.len(),
            at + part@.len() <= text@.len(),
            i <= part@.len(),
            forall|j: int| 0 <= j < i ==> #[trigger] part@[j] == text@[at + j],
        decreases part.len() - i,
    {
        if text[at + i] != part[i] {
            assert(text@.subrange(at as int, at + part@.len())[i as int] != part@[i as int]);
            return false;
        }
        i += 1;
    }
    assert(text@.subrange(at as int, at + part@.len()) =~= part@);
    true
}

/// How a text matches a query.
fn match_text(text: &str, query: &str) -> (quality: Option<MatchQuality>)
    ensures
        quality == quality_of(text@, query@),
{
    let bytes = text.as_bytes();
    let part = query.as_bytes();
    if bytes.len() < part.len() {
        return None;
    }
    if part_at(bytes, part, 0) {
        assert(bytes@.subrange(0, bytes@.len() as int) =~= bytes@);
        return Some(
            if bytes.len() == part.len() {
                MatchQuality::Exact
            } else {
                MatchQuality::Prefix
            },
        );
    }
    assert(bytes@.subrange(0, bytes@.len() as int) =~= bytes@);
    let last: usize = bytes.len() - part.len();
    let mut at: usize = 0;
    while at < last
        invariant
            at <= last,
            last + part@.len() == bytes@.len(),
            bytes@ == vstd::utf8::encode_utf8(text@),
            part@ == vstd::utf8::encode_utf8(query@),
            bytes@ != part@,
            forall|j: int| 0 <= j <= at ==> !#[trigger] occurs_at(bytes@, part@, j),
        decreases last - at,
    {
        at += 1;
        if part_at(bytes, part, at) {
            assert(!occurs_at(bytes@, part@, 0));
            return Some(MatchQuality::Contains);
        }
    }
    assert forall|j: int| !occurs_at(bytes@, part@, j) by {
        if 0 <= j <= last {
            assert(!occurs_at(bytes@, part@, j));
        }
    }
    None
}

/// The better of a match so far and that of one more field. An earlier field wins
/// a tie.
pub open spec fn match_with(
    current: Option<SearchMatch>,
    field: MatchedField,
    text: Option<Seq<char>>,
    query: Seq<char>,
) -> Option<SearchMatch> {
    match text {
        None => current,
        Some(text) => match quality_of(lowercased(text), query) {
            None => current,
            Some(quality) => if current is Some && current->0.quality.place() <= quality.place() {
                current
            } else {
                Some(SearchMatch { field, quality })
            },
        },
    }
}

fn pick_match(
    current: Option<SearchMatch>,
    field: MatchedField,
    text: Option<&String>,
    query: &str,
) -> (picked: Option<SearchMatch>)
    ensures
        picked == match_with(
            current,
            field,
            match text {
                Some(text) => Some(text@),
                None => None,
            },
            query@,
        ),
{
    match text {
        None => current,
        Some(text) => match match_text(lowercase_text(text.as_str()).as_str(), query) {
            None => current,
            Some(quality) => match current {
                Some(found) => if found.quality.to_place() <= quality.to_place() {
                    Some(found)
                } else {
                    Some(SearchMatch { field, quality })
                },
                None => Some(SearchMatch { field, quality }),
            },
        },
    }
}

/// How a profile matches a query.
pub open spec fn profile_match(profile: ProfileContent, query: Seq<char>) -> Option<SearchMatch> {
    let by_name = match_with(None, MatchedField::Name, profile.name, query);
    let by_display = match_with(by_name, MatchedField::DisplayName, profile.display_name, query);
    let by_nip05 = match_with(by_display, MatchedField::Nip05, profile.nip05, query);
    match_with(by_nip05, MatchedField::About, profile.about, query)
}

/// How an account matches a query: by its profile, its `npub` or its identity in
/// hexadecimal, whichever matches best.
pub open spec fn record_match(entry: EntryContent, query: Seq<char>) -> Option<SearchMatch> {
    let by_profile = match entry.profile {
        Some(profile) => profile_match(profile, query),
        None => None,
    };
    let by_npub = match_with(by_profile, MatchedField::Npub, Some(entry.npub), query);
    match_with(by_npub, MatchedField::AccountId, Some(entry.account_id_hex), query)
}

/// How an account matches a query. The query is in lower case.
pub fn user_record_match(record: &UserDirectoryRecord, query: &str) -> (found: Option<SearchMatch>)
    ensures
        found == record_match(record.deep_view(), query@),
{
    let by_profile = match &record.profile {
        Some(profile) => {
            let by_name = pick_match(None, MatchedField::Name, profile.name.as_ref(), query);
            let by_display = pick_match(
                by_name,
                MatchedField::DisplayName,
                profile.display_name.as_ref(),
                query,
            );
            let by_nip05 = pick_match(
                by_display,
                MatchedField::Nip05,
                profile.nip05.as_ref(),
                query,
            );
            pick_match(by_nip05, MatchedField::About, profile.about.as_ref(), query)
        },
        None => None,
    };
    let by_npub = pick_match(by_profile, MatchedField::Npub, Some(&record.npub), query);
    pick_match(by_npub, MatchedField::AccountId, Some(&record.account_id_hex), query)
}

/// The rank that a discovery provider gave: the bits of a double-precision number,
/// ordered as those numbers are totally ordered.
#[derive(Clone, Copy, Debug, PartialEq, Eq, Structural)]
pub struct ProviderRank {
    pub bits: u64,
}

/// A number that orders provider ranks. The highest bit is the sign, so negative
/// ranks count down from the middle.
pub open spec fn rank_key(rank: ProviderRank) -> u64 {
    if rank.bits < 0x8000_0000_0000_0000 {
        (rank.bits + 0x8000_0000_0000_0000) as u64
    } else {
        (u64::MAX - rank.bits) as u64
    }
}

impl ProviderRank {
    pub fn from_bits(bits: u64) -> (rank: Self)
        ensures
            rank.bits == bits,
    {
        ProviderRank { bits }
    }

    fn key(self) -> (key: u64)
        ensures
            key == rank_key(self),
    {
        if self.bits < 0x8000_0000_0000_0000 {
            self.bits + 0x8000_0000_0000_0000
        } else {
            u64::MAX - self.bits
        }
    }
}

/// An account that a search found. `provider_rank` is set for discovery results
/// alone.
#[derive(Debug, PartialEq, Eq)]
pub struct UserDirectorySearchResult {
    pub account_id_hex: String,
    pub npub: String,
    pub radius: u8,
    pub matched_field: MatchedField,
    pub match_quality: MatchQuality,
    pub provider_rank: Option<ProviderRank>,
    pub profile: Option<UserProfileMetadata>,
}

/// The content of a [`UserDirectorySearchResult`].
#[verifier::ext_equal]
pub struct ResultContent {
    pub account_id_hex: Seq<char>,
    pub npub: Seq<char>,
    pub radius: u8,
    pub matched_field: MatchedField,
    pub match_quality: MatchQuality,
    pub provider_rank: Option<ProviderRank>,
    pub profile: Option<ProfileContent>,
}

impl DeepView for UserDirectorySearchResult {
    type V = ResultContent;

    open spec fn deep_view(&self) -> ResultContent {
        ResultContent {
            account_id_hex: self.account_id_hex@,
            npub: self.npub@,
            radius: self.radius,
            matched_field: self.matched_field,
            match_quality: self.match_quality,
            provider_rank: self.provider_rank,
            profile: self.profile.deep_view(),
        }
    }
}

/// The result that an account gives at a radius.
pub open spec fn result_of(
    entry: EntryContent,
    radius: u8,
    found: SearchMatch,
    provider_rank: Option<ProviderRank>,
) -> ResultContent {
    ResultContent {
        account_id_hex: entry.account_id_hex,
        npub: entry.npub,
        radius,
        matched_field: found.field,
        match_quality: found.quality,
        provider_rank,
        profile: entry.profile,
    }
}

/// The result that an account gives at a radius.
pub fn search_result(
    record: &UserDirectoryRecord,
    radius: u8,
    found: SearchMatch,
    provider_rank: Option<ProviderRank>,
) -> (result: UserDirectorySearchResult)
    ensures
        result.deep_view() == result_of(record.deep_view(), radius, found, provider_rank),
{
    UserDirectorySearchResult {
        account_id_hex: record.account_id_hex.clone(),
        npub: record.npub.clone(),
        radius,
        matched_field: found.field,
        match_quality: found.quality,
        provider_rank,
        profile: copy_optional(&record.profile),
    }
}

/// How two provider ranks compare: the higher first, and any before none.
pub open spec fn provider_order(a: Option<ProviderRank>, b: Option<ProviderRank>) -> int {
    match (a, b) {
        (Some(left), Some(right)) => number_rank(rank_key(right), rank_key(left)),
        (Some(_), None) => -1,
        (None, Some(_)) => 1,
        (None, None) => 0,
    }
}

/// How two results compare: by radius, provider rank, match quality, matched field
/// and account.
pub open spec fn result_rank(a: ResultContent, b: ResultContent) -> int {
    either_rank(
        number_rank(a.radius as u64, b.radius as u64),
        either_rank(
            provider_order(a.provider_rank, b.provider_rank),
            either_rank(
                number_rank(a.match_quality.place(), b.match_quality.place()),
                either_rank(
                    number_rank(a.matched_field.place(), b.matched_field.place()),
                    text_rank(a.account_id_hex, b.account_id_hex),
                ),
            ),
        ),
    )
}

pub open spec fn result_lt() -> spec_fn(ResultContent, ResultContent) -> bool {
    |a: ResultContent, b: ResultContent| result_rank(a, b) < 0
}

proof fn lemma_result_rank(a: ResultContent, b: ResultContent, c: ResultContent)
    ensures
        ranks_agree(result_rank(a, b), result_rank(b, c), result_rank(a, c), result_rank(b, a)),
{
    lemma_text_rank(a.account_id_hex, b.account_id_hex, c.account_id_hex);
}

pub proof fn lemma_result_weak_order()
    ensures
        is_weak_order(result_lt()),
{
    let lt = result_lt();
    assert forall|a: ResultContent, b: ResultContent| #[trigger] lt(a, b) implies !lt(b, a) by {
        lemma_result_rank(a, b, b);
    }
    assert forall|a: ResultContent, b: ResultContent, c: ResultContent|
        #![trigger lt(a, b), lt(b, c)]
        !lt(a, b) && !lt(b, c) implies !lt(a, c) by {
        lemma_result_rank(a, b, c);
    }
}

fn rank_providers(a: Option<ProviderRank>, b: Option<ProviderRank>) -> (rank: i8)
    ensures
        rank == provider_order(a, b),
{
    match (a, b) {
        (Some(left), Some(right)) => rank_numbers(right.key(), left.key()),
        (Some(_), None) => -1,
        (None, Some(_)) => 1,
        (None, None) => 0,
    }
}

fn rank_results(a: &UserDirectorySearchResult, b: &UserDirectorySearchResult) -> (rank: i8)
    ensures
        rank == result_rank(a.deep_view(), b.deep_view()),
{
    let by_radius: i8 = rank_numbers(a.radius as u64, b.radius as u64);
    if by_radius != 0 {
        return by_radius;
    }
    let by_provider: i8 = rank_providers(a.provider_rank, b.provider_rank);
    if by_provider != 0 {
        return by_provider;
    }
    let by_quality: i8 = rank_numbers(a.match_quality.to_place(), b.match_quality.to_place());
    if by_quality != 0 {
        return by_quality;
    }
    let by_field: i8 = rank_numbers(a.matched_field.to_place(), b.matched_field.to_place());
    if by_field != 0 {
        return by_field;
    }
    rank_texts(&a.account_id_hex, &b.account_id_hex)
}

impl Ordered for UserDirectorySearchResult {
    open spec fn before(&self, other: &Self) -> bool {
        result_rank(self.deep_view(), other.deep_view()) < 0
    }

    proof fn order_laws(first: &Self, second: &Self, third: &Self) {
        lemma_result_rank(first.deep_view(), second.deep_view(), third.deep_view());
        lemma_result_rank(first.deep_view(), second.deep_view(), second.deep_view());
    }

    fn precedes(&self, other: &Self) -> (earlier: bool) {
        rank_results(self, other) < 0
    }
}

pub open spec fn result_content() -> spec_fn(UserDirectorySearchResult) -> ResultContent {
    |result: UserDirectorySearchResult| result.deep_view()
}

/// Ranks results best first: by radius, provider rank, match quality, matched field
/// and account. Results that tie keep their order.
pub fn sort_user_search_results(results: &mut Vec<UserDirectorySearchResult>)
    ensures
        final(results).deep_view() == sorted_by(old(results).deep_view(), result_lt()),
{
    let mut given: Vec<UserDirectorySearchResult> = Vec::new();
    core::mem::swap(&mut given, results);
    let ghost before = given@;
    assert(before.map_values(result_content()) =~= given.deep_view());
    let sorted = sort_stable(given);
    proof {
        lemma_sorted_content(before, result_content(), result_lt());
        assert(sorted@.map_values(result_content()) =~= sorted.deep_view());
    }
    *results = sorted;
}

/// Ranking keeps every result, and no result stands before a better one. In
/// particular radii never decrease, and at one radius a provider rank never
/// follows a lower one.
pub proof fn law_ranking_puts_the_best_first(results: Seq<ResultContent>)
    ensures
        ({
            let ranked = sorted_by(results, result_lt());
            &&& ranked.len() == results.len()
            &&& ranked.to_multiset() == results.to_multiset()
            &&& is_sorted_by(ranked, result_lt())
            &&& forall|i: int, j: int|
                0 <= i < j < ranked.len() ==> (#[trigger] ranked[i]).radius <= (
                #[trigger] ranked[j]).radius
            &&& forall|i: int, j: int|
                0 <= i < j < ranked.len() && (#[trigger] ranked[i]).radius == (
                #[trigger] ranked[j]).radius ==> provider_order(
                    ranked[i].provider_rank,
                    ranked[j].provider_rank,
                ) <= 0
        }),
{
    let lt = result_lt();
    lemma_result_weak_order();
    lemma_sorted_by(results, lt);
    let ranked = sorted_by(results, lt);
    assert forall|i: int, j: int| 0 <= i < j < ranked.len() implies (#[trigger] ranked[i]).radius <= (
    #[trigger] ranked[j]).radius by {
        assert(!lt(ranked[j], ranked[i]));
    }
    assert forall|i: int, j: int|
        0 <= i < j < ranked.len() && (#[trigger] ranked[i]).radius == (
        #[trigger] ranked[j]).radius implies provider_order(
        ranked[i].provider_rank,
        ranked[j].provider_rank,
    ) <= 0 by {
        assert(!lt(ranked[j], ranked[i]));
    }
}

} // verus!
