//! Merging what a device and its relays know of an account's key packages.

use crate::collections::Key;
use crate::order::{
    ascending_set, insert_by, is_weak_order, lemma_ascending_set, lemma_extend_unique,
    lemma_sorted_by, lemma_sorted_content, lemma_sorted_unique, lemma_text_lt_total, lemma_text_lt_transitive, push_unique_texts,
    sort_dedup, sort_stable, sorted_by, text_less, text_lt, Ordered,
};
use vstd::prelude::*;

verus! {

/// One key package of an account, as a device or its relays know it.
#[derive(Debug, PartialEq, Eq)]
pub struct AccountKeyPackageRecord {
    pub account_label: Option<String>,
    pub account_id_hex: String,
    pub key_package_id: String,
    pub key_package_ref_hex: String,
    pub key_package_event_id: String,
    pub published_at: u64,
    pub key_package_bytes: usize,
    pub source_relays: Vec<String>,
    pub local: bool,
    pub relay: bool,
}

/// The content of an [`AccountKeyPackageRecord`].
#[verifier::ext_equal]
pub struct RecordContent {
    pub account_label: Option<Seq<char>>,
    pub account_id_hex: Seq<char>,
    pub key_package_id: Seq<char>,
    pub key_package_ref_hex: Seq<char>,
    pub key_package_event_id: Seq<char>,
    pub published_at: u64,
    pub key_package_bytes: usize,
    pub source_relays: Seq<Seq<char>>,
    pub local: bool,
    pub relay: bool,
}

impl DeepView for AccountKeyPackageRecord {
    type V = RecordContent;

    open spec fn deep_view(&self) -> RecordContent {
        RecordContent {
            account_label: self.account_label.deep_view(),
            account_id_hex: self.account_id_hex@,
            key_package_id: self.key_package_id@,
            key_package_ref_hex: self.key_package_ref_hex@,
            key_package_event_id: self.key_package_event_id@,
            published_at: self.published_at,
            key_package_bytes: self.key_package_bytes,
            source_relays: self.source_relays.deep_view(),
            local: self.local,
            relay: self.relay,
        }
    }
}

fn copy_label(label: &Option<String>) -> (copy: Option<String>)
    ensures
        copy.deep_view() == label.deep_view(),
{
    match label {
        Some(text) => Some(text.clone()),
        None => None,
    }
}

impl AccountKeyPackageRecord {
    fn duplicate(&self) -> (copy: Self)
        ensures
            copy.deep_view() == self.deep_view(),
    {
        AccountKeyPackageRecord {
            account_label: copy_label(&self.account_label),
            account_id_hex: self.account_id_hex.clone(),
            key_package_id: self.key_package_id.clone(),
            key_package_ref_hex: self.key_package_ref_hex.clone(),
            key_package_event_id: self.key_package_event_id.clone(),
            published_at: self.published_at,
            key_package_bytes: self.key_package_bytes,
            source_relays: crate::collections::copy_list(&self.source_relays),
            local: self.local,
            relay: self.relay,
        }
    }
}

/// How two texts compare: negative, zero or positive.
pub open spec fn text_rank(left: Seq<char>, right: Seq<char>) -> int {
    if left == right {
        0
    } else if text_lt(left, right) {
        -1
    } else {
        1
    }
}

/// How two lists of texts compare, element by element; a proper prefix comes first.
pub open spec fn texts_rank(left: Seq<Seq<char>>, right: Seq<Seq<char>>) -> int
    decreases left.len(),
{
    if left.len() == 0 {
        if right.len() == 0 {
            0
        } else {
            -1
        }
    } else if right.len() == 0 {
        1
    } else if left[0] != right[0] {
        text_rank(left[0], right[0])
    } else {
        texts_rank(left.drop_first(), right.drop_first())
    }
}

pub open spec fn flag_rank(left: bool, right: bool) -> int {
    if left == right {
        0
    } else if right {
        -1
    } else {
        1
    }
}

pub open spec fn number_rank(left: u64, right: u64) -> int {
    if left == right {
        0
    } else if left < right {
        -1
    } else {
        1
    }
}

/// The first comparison, or the second where the first is a tie.
pub open spec fn either_rank(first: int, second: int) -> int {
    if first != 0 {
        first
    } else {
        second
    }
}

/// What holds of the three comparisons of three values under a total order.
pub open spec fn ranks_agree(ab: int, bc: int, ac: int, ba: int) -> bool {
    &&& ba == -ab
    &&& ab < 0 && bc < 0 ==> ac < 0
    &&& ab > 0 && bc > 0 ==> ac > 0
    &&& ab == 0 ==> ac == bc
    &&& bc == 0 ==> ac == ab
}

pub proof fn lemma_text_rank(a: Seq<char>, b: Seq<char>, c: Seq<char>)
    ensures
        ranks_agree(text_rank(a, b), text_rank(b, c), text_rank(a, c), text_rank(b, a)),
        text_rank(a, b) == 0 <==> a == b,
{
    lemma_text_lt_total(a, b);
    lemma_text_lt_total(b, c);
    lemma_text_lt_total(a, c);
    if text_lt(a, b) && text_lt(b, c) {
        lemma_text_lt_transitive(a, b, c);
    }
    if text_lt(c, b) && text_lt(b, a) {
        lemma_text_lt_transitive(c, b, a);
    }
}

proof fn lemma_texts_rank_pair(a: Seq<Seq<char>>, b: Seq<Seq<char>>)
    ensures
        texts_rank(b, a) == -texts_rank(a, b),
        texts_rank(a, b) == 0 <==> a == b,
    decreases a.len(),
{
    if a.len() > 0 && b.len() > 0 {
        lemma_text_rank(a[0], b[0], b[0]);
        if a[0] == b[0] {
            lemma_texts_rank_pair(a.drop_first(), b.drop_first());
            if a.drop_first() == b.drop_first() {
                assert forall|i: int| 0 <= i < a.len() implies a[i] == b[i] by {
                    if i > 0 {
                        assert(a.drop_first()[i - 1] == a[i]);
                        assert(b.drop_first()[i - 1] == b[i]);
                    }
                }
                assert(a.len() == a.drop_first().len() + 1);
                assert(b.len() == b.drop_first().len() + 1);
                assert(a =~= b);
            }
        }
    } else if a.len() == 0 && b.len() == 0 {
        assert(a =~= b);
    }
}

proof fn lemma_texts_rank_chain(a: Seq<Seq<char>>, b: Seq<Seq<char>>, c: Seq<Seq<char>>)
    requires
        texts_rank(a, b) < 0,
        texts_rank(b, c) < 0,
    ensures
        texts_rank(a, c) < 0,
    decreases a.len(),
{
    if a.len() > 0 && b.len() > 0 && c.len() > 0 {
        lemma_text_rank(a[0], b[0], c[0]);
        lemma_text_rank(b[0], c[0], c[0]);
        lemma_text_rank(a[0], c[0], c[0]);
        if a[0] == b[0] && b[0] == c[0] {
            lemma_texts_rank_chain(a.drop_first(), b.drop_first(), c.drop_first());
        }
    }
}

proof fn lemma_texts_rank(a: Seq<Seq<char>>, b: Seq<Seq<char>>, c: Seq<Seq<char>>)
    ensures
        ranks_agree(texts_rank(a, b), texts_rank(b, c), texts_rank(a, c), texts_rank(b, a)),
        texts_rank(a, b) == 0 <==> a == b,
{
    lemma_texts_rank_pair(a, b);
    lemma_texts_rank_pair(b, c);
    lemma_texts_rank_pair(a, c);
    if texts_rank(a, b) < 0 && texts_rank(b, c) < 0 {
        lemma_texts_rank_chain(a, b, c);
    }
    if texts_rank(a, b) > 0 && texts_rank(b, c) > 0 {
        lemma_texts_rank_chain(c, b, a);
    }
}

/// The order in which records are merged: by event, reference, slot, origin, time
/// and relays.
pub open spec fn identity_rank(a: RecordContent, b: RecordContent) -> int {
    either_rank(
        text_rank(a.key_package_event_id, b.key_package_event_id),
        either_rank(
            text_rank(a.key_package_ref_hex, b.key_package_ref_hex),
            either_rank(
                text_rank(a.key_package_id, b.key_package_id),
                either_rank(
                    flag_rank(a.local, b.local),
                    either_rank(
                        flag_rank(a.relay, b.relay),
                        either_rank(
                            number_rank(a.published_at, b.published_at),
                            texts_rank(a.source_relays, b.source_relays),
                        ),
                    ),
                ),
            ),
        ),
    )
}

/// The order in which merged records are listed: newest first, then by event,
/// reference and slot.
pub open spec fn publication_rank(a: RecordContent, b: RecordContent) -> int {
    either_rank(
        number_rank(b.published_at, a.published_at),
        either_rank(
            text_rank(a.key_package_event_id, b.key_package_event_id),
            either_rank(
                text_rank(a.key_package_ref_hex, b.key_package_ref_hex),
                text_rank(a.key_package_id, b.key_package_id),
            ),
        ),
    )
}

pub open spec fn identity_lt() -> spec_fn(RecordContent, RecordContent) -> bool {
    |a: RecordContent, b: RecordContent| identity_rank(a, b) < 0
}

pub open spec fn publication_lt() -> spec_fn(RecordContent, RecordContent) -> bool {
    |a: RecordContent, b: RecordContent| publication_rank(a, b) < 0
}

proof fn lemma_identity_rank(a: RecordContent, b: RecordContent, c: RecordContent)
    ensures
        ranks_agree(
            identity_rank(a, b),
            identity_rank(b, c),
            identity_rank(a, c),
            identity_rank(b, a),
        ),
{
    lemma_text_rank(a.key_package_event_id, b.key_package_event_id, c.key_package_event_id);
    lemma_text_rank(a.key_package_ref_hex, b.key_package_ref_hex, c.key_package_ref_hex);
    lemma_text_rank(a.key_package_id, b.key_package_id, c.key_package_id);
    lemma_texts_rank(a.source_relays, b.source_relays, c.source_relays);
}

pub proof fn lemma_publication_rank(a: RecordContent, b: RecordContent, c: RecordContent)
    ensures
        ranks_agree(
            publication_rank(a, b),
            publication_rank(b, c),
            publication_rank(a, c),
            publication_rank(b, a),
        ),
{
    lemma_text_rank(a.key_package_event_id, b.key_package_event_id, c.key_package_event_id);
    lemma_text_rank(a.key_package_ref_hex, b.key_package_ref_hex, c.key_package_ref_hex);
    lemma_text_rank(a.key_package_id, b.key_package_id, c.key_package_id);
}

pub proof fn lemma_identity_weak_order()
    ensures
        is_weak_order(identity_lt()),
{
    let lt = identity_lt();
    assert forall|a: RecordContent, b: RecordContent| #[trigger] lt(a, b) implies !lt(b, a) by {
        lemma_identity_rank(a, b, b);
    }
    assert forall|a: RecordContent, b: RecordContent, c: RecordContent|
        #![trigger lt(a, b), lt(b, c)]
        !lt(a, b) && !lt(b, c) implies !lt(a, c) by {
        lemma_identity_rank(a, b, c);
    }
}

/// How two texts compare.
pub fn rank_texts(left: &String, right: &String) -> (rank: i8)
    ensures
        rank == text_rank(left@, right@),
{
    if left.same(right) {
        0
    } else if text_less(left.as_str(), right.as_str()) {
        -1
    } else {
        1
    }
}

fn rank_flags(left: bool, right: bool) -> (rank: i8)
    ensures
        rank == flag_rank(left, right),
{
    if left == right {
        0
    } else if right {
        -1
    } else {
        1
    }
}

/// How two numbers compare.
pub fn rank_numbers(left: u64, right: u64) -> (rank: i8)
    ensures
        rank == number_rank(left, right),
{
    if left == right {
        0
    } else if left < right {
        -1
    } else {
        1
    }
}

/// How two lists of texts compare.
pub fn rank_text_lists(left: &Vec<String>, right: &Vec<String>) -> (rank: i8)
    ensures
        rank == texts_rank(left.deep_view(), right.deep_view()),
{
    let mut i: usize = 0;
    let ghost l = left.deep_view();
    let ghost r = right.deep_view();
    assert(l.skip(0) =~= l);
    assert(r.skip(0) =~= r);
    while i < left.len() && i < right.len()
        invariant
            i <= left@.len(),
            i <= right@.len(),
            l == left.deep_view(),
            r == right.deep_view(),
            texts_rank(l, r) == texts_rank(l.skip(i as int), r.skip(i as int)),
        decreases left.len() - i,
    {
        assert(l.skip(i as int)[0] == left@[i as int]@);
        assert(r.skip(i as int)[0] == right@[i as int]@);
        let rank: i8 = rank_texts(&left[i], &right[i]);
        if rank != 0 {
            return rank;
        }
        assert(l.skip(i as int).drop_first() =~= l.skip(i + 1));
        assert(r.skip(i as int).drop_first() =~= r.skip(i + 1));
        proof {
            lemma_text_rank(left@[i as int]@, right@[i as int]@, right@[i as int]@);
        }
        i += 1;
    }
    if i < right.len() {
        -1
    } else if i < left.len() {
        1
    } else {
        0
    }
}

/// How two records compare when they are merged.
pub fn record_identity_order(left: &AccountKeyPackageRecord, right: &AccountKeyPackageRecord)
    -> (rank: i8)
    ensures
        rank == identity_rank(left.deep_view(), right.deep_view()),
{
    let by_event: i8 = rank_texts(&left.key_package_event_id, &right.key_package_event_id);
    if by_event != 0 {
        return by_event;
    }
    let by_ref: i8 = rank_texts(&left.key_package_ref_hex, &right.key_package_ref_hex);
    if by_ref != 0 {
        return by_ref;
    }
    let by_slot: i8 = rank_texts(&left.key_package_id, &right.key_package_id);
    if by_slot != 0 {
        return by_slot;
    }
    let by_local: i8 = rank_flags(left.local, right.local);
    if by_local != 0 {
        return by_local;
    }
    let by_relay: i8 = rank_flags(left.relay, right.relay);
    if by_relay != 0 {
        return by_relay;
    }
    let by_time: i8 = rank_numbers(left.published_at, right.published_at);
    if by_time != 0 {
        return by_time;
    }
    rank_text_lists(&left.source_relays, &right.source_relays)
}

fn record_publication_order(left: &AccountKeyPackageRecord, right: &AccountKeyPackageRecord)
    -> (rank: i8)
    ensures
        rank == publication_rank(left.deep_view(), right.deep_view()),
{
    let by_time: i8 = rank_numbers(right.published_at, left.published_at);
    if by_time != 0 {
        return by_time;
    }
    let by_event: i8 = rank_texts(&left.key_package_event_id, &right.key_package_event_id);
    if by_event != 0 {
        return by_event;
    }
    let by_ref: i8 = rank_texts(&left.key_package_ref_hex, &right.key_package_ref_hex);
    if by_ref != 0 {
        return by_ref;
    }
    rank_texts(&left.key_package_id, &right.key_package_id)
}

/// A record to be ordered for merging.
struct ByIdentity {
    record: AccountKeyPackageRecord,
}

impl Ordered for ByIdentity {
    closed spec fn before(&self, other: &Self) -> bool {
        identity_rank(self.record.deep_view(), other.record.deep_view()) < 0
    }

    proof fn order_laws(first: &Self, second: &Self, third: &Self) {
        lemma_identity_rank(
            first.record.deep_view(),
            second.record.deep_view(),
            third.record.deep_view(),
        );
    }

    fn precedes(&self, other: &Self) -> (earlier: bool) {
        record_identity_order(&self.record, &other.record) < 0
    }
}

/// A merged record to be ordered for listing.
struct ByPublication {
    record: AccountKeyPackageRecord,
}

impl Ordered for ByPublication {
    closed spec fn before(&self, other: &Self) -> bool {
        publication_rank(self.record.deep_view(), other.record.deep_view()) < 0
    }

    proof fn order_laws(first: &Self, second: &Self, third: &Self) {
        lemma_publication_rank(
            first.record.deep_view(),
            second.record.deep_view(),
            third.record.deep_view(),
        );
    }

    fn precedes(&self, other: &Self) -> (earlier: bool) {
        record_publication_order(&self.record, &other.record) < 0
    }
}

/// A record with its relays ascending and without repetition.
pub open spec fn normalized(record: RecordContent) -> RecordContent {
    RecordContent { source_relays: ascending_set(record.source_relays), ..record }
}

/// A record that takes in what another one knows of the same package.
pub open spec fn absorbed(existing: RecordContent, record: RecordContent) -> RecordContent {
    RecordContent {
        local: existing.local || record.local,
        relay: existing.relay || record.relay,
        published_at: if existing.published_at >= record.published_at {
            existing.published_at
        } else {
            record.published_at
        },
        key_package_bytes: if existing.key_package_bytes >= record.key_package_bytes {
            existing.key_package_bytes
        } else {
            record.key_package_bytes
        },
        account_label: if existing.account_label is None {
            record.account_label
        } else {
            existing.account_label
        },
        key_package_event_id: if existing.key_package_event_id.len() == 0 {
            record.key_package_event_id
        } else {
            existing.key_package_event_id
        },
        key_package_ref_hex: if existing.key_package_ref_hex.len() == 0 {
            record.key_package_ref_hex
        } else {
            existing.key_package_ref_hex
        },
        source_relays: ascending_set(existing.source_relays + record.source_relays),
        ..existing
    }
}

/// Lets a record take in what another one knows of the same package.
fn merge_record_fields(existing: &mut AccountKeyPackageRecord, record: &AccountKeyPackageRecord)
    ensures
        final(existing).deep_view() == absorbed(old(existing).deep_view(), record.deep_view()),
{
    existing.local = existing.local || record.local;
    existing.relay = existing.relay || record.relay;
    if existing.published_at < record.published_at {
        existing.published_at = record.published_at;
    }
    if existing.key_package_bytes < record.key_package_bytes {
        existing.key_package_bytes = record.key_package_bytes;
    }
    if existing.account_label.is_none() {
        existing.account_label = copy_label(&record.account_label);
    }
    if existing.key_package_event_id.as_str().is_empty() {
        existing.key_package_event_id = record.key_package_event_id.clone();
    }
    if existing.key_package_ref_hex.as_str().is_empty() {
        existing.key_package_ref_hex = record.key_package_ref_hex.clone();
    }
    let ghost before = existing.source_relays.deep_view();
    let ghost more = record.source_relays.deep_view();
    let mut relays: Vec<String> = Vec::new();
    core::mem::swap(&mut relays, &mut existing.source_relays);
    push_unique_texts(&mut relays, &record.source_relays);
    let ghost joined = relays.deep_view();
    let relays = sort_dedup(relays);
    proof {
        lemma_extend_unique(before, more);
        assert forall|t: Seq<char>| #![auto] relays.deep_view().contains(t) <==> (before
            + more).contains(t) by {
            lemma_concat_contains(before, more, t);
        }
        lemma_ascending_set(relays.deep_view(), before + more);
    }
    existing.source_relays = relays;
}

pub proof fn lemma_concat_contains<T>(left: Seq<T>, right: Seq<T>, x: T)
    ensures
        (left + right).contains(x) <==> left.contains(x) || right.contains(x),
{
    if left.contains(x) {
        let i = choose|i: int| 0 <= i < left.len() && left[i] == x;
        assert((left + right)[i] == x);
    }
    if right.contains(x) {
        let i = choose|i: int| 0 <= i < right.len() && right[i] == x;
        assert((left + right)[left.len() + i] == x);
    }
    if (left + right).contains(x) {
        let i = choose|i: int| 0 <= i < (left + right).len() && (left + right)[i] == x;
        if i < left.len() {
            assert(left[i] == x);
        } else {
            assert(right[i - left.len()] == x);
        }
    }
}

/// Whether a relay record names the event that an existing record names.
pub open spec fn same_event(existing: RecordContent, record: RecordContent) -> bool {
    record.key_package_event_id.len() > 0 && record.key_package_event_id
        == existing.key_package_event_id
}

/// Whether a local record is a copy of an existing one: of the same event, or,
/// where it names no event, of the same package.
pub open spec fn local_copy(existing: RecordContent, record: RecordContent) -> bool {
    ||| same_event(existing, record)
    ||| record.key_package_event_id.len() == 0 && record.key_package_ref_hex.len() > 0
        && record.key_package_ref_hex == existing.key_package_ref_hex
}

/// Whether a local record is the twin of one that only the device knows: the same
/// package, or, where neither names an event or package, the same slot.
pub open spec fn local_twin(existing: RecordContent, record: RecordContent) -> bool {
    &&& existing.local && !existing.relay
    &&& {
        ||| record.key_package_ref_hex.len() > 0 && record.key_package_ref_hex
            == existing.key_package_ref_hex
        ||| record.key_package_ref_hex.len() == 0 && existing.key_package_ref_hex.len() == 0
            && record.key_package_event_id.len() == 0 && existing.key_package_event_id.len() == 0
            && record.key_package_id == existing.key_package_id
    }
}

/// The first position that a predicate selects, or the length.
pub open spec fn first_such(
    records: Seq<RecordContent>,
    record: RecordContent,
    chosen: spec_fn(RecordContent, RecordContent) -> bool,
    from: int,
) -> int
    decreases records.len() - from,
{
    if from >= records.len() {
        records.len() as int
    } else if chosen(records[from], record) {
        from
    } else {
        first_such(records, record, chosen, from + 1)
    }
}

/// The records after a record joined the first one that a predicate selects, or
/// was appended.
pub open spec fn joined(
    records: Seq<RecordContent>,
    record: RecordContent,
    chosen: spec_fn(RecordContent, RecordContent) -> bool,
) -> Seq<RecordContent> {
    let i = first_such(records, record, chosen, 0);
    if 0 <= i < records.len() {
        records.update(i, absorbed(records[i], record))
    } else {
        records.push(record)
    }
}

pub open spec fn by_event() -> spec_fn(RecordContent, RecordContent) -> bool {
    |e: RecordContent, r: RecordContent| same_event(e, r)
}

pub open spec fn by_twin() -> spec_fn(RecordContent, RecordContent) -> bool {
    |e: RecordContent, r: RecordContent| local_twin(e, r)
}

/// Whether some record has a local record as its copy.
pub open spec fn has_copy(records: Seq<RecordContent>, record: RecordContent) -> bool {
    exists|i: int| 0 <= i < records.len() && #[trigger] local_copy(records[i], record)
}

/// The records after a local record joined every record it is a copy of, or
/// else its twin, or was appended.
pub open spec fn with_local(records: Seq<RecordContent>, record: RecordContent) -> Seq<
    RecordContent,
> {
    if has_copy(records, record) {
        Seq::new(
            records.len(),
            |i: int|
                if local_copy(records[i], record) {
                    absorbed(records[i], record)
                } else {
                    records[i]
                },
        )
    } else {
        joined(records, record, by_twin())
    }
}

/// What the relay records of a list merge to.
pub open spec fn relay_pass(sorted: Seq<RecordContent>) -> Seq<RecordContent>
    decreases sorted.len(),
{
    if sorted.len() == 0 {
        Seq::empty()
    } else {
        let before = relay_pass(sorted.drop_last());
        if sorted.last().relay {
            joined(before, sorted.last(), by_event())
        } else {
            before
        }
    }
}

/// What the local records of a list add to merged relay records.
pub open spec fn local_pass(records: Seq<RecordContent>, sorted: Seq<RecordContent>) -> Seq<
    RecordContent,
>
    decreases sorted.len(),
{
    if sorted.len() == 0 {
        records
    } else {
        let before = local_pass(records, sorted.drop_last());
        if sorted.last().local {
            with_local(before, sorted.last())
        } else {
            before
        }
    }
}

/// The merged list of an account's key packages.
pub open spec fn merged(records: Seq<RecordContent>) -> Seq<RecordContent> {
    let sorted = sorted_by(records.map_values(|r: RecordContent| normalized(r)), identity_lt());
    sorted_by(local_pass(relay_pass(sorted), sorted), publication_lt())
}

spec fn identity_content() -> spec_fn(ByIdentity) -> RecordContent {
    |b: ByIdentity| b.record.deep_view()
}

spec fn publication_content() -> spec_fn(ByPublication) -> RecordContent {
    |b: ByPublication| b.record.deep_view()
}

fn join_first(
    merged: &mut Vec<AccountKeyPackageRecord>,
    record: &AccountKeyPackageRecord,
    position: Option<usize>,
    Ghost(chosen): Ghost<spec_fn(RecordContent, RecordContent) -> bool>,
)
    requires
        match position {
            Some(i) => i < old(merged)@.len() && first_such(
                old(merged).deep_view(),
                record.deep_view(),
                chosen,
                0,
            ) == i,
            None => first_such(old(merged).deep_view(), record.deep_view(), chosen, 0)
                == old(merged)@.len(),
        },
    ensures
        final(merged).deep_view() == joined(old(merged).deep_view(), record.deep_view(), chosen),
{
    let ghost before = merged.deep_view();
    match position {
        Some(i) => {
            let mut existing = merged.remove(i);
            merge_record_fields(&mut existing, record);
            merged.insert(i, existing);
            assert(merged.deep_view() =~= before.update(
                i as int,
                absorbed(before[i as int], record.deep_view()),
            ));
        },
        None => {
            merged.push(record.duplicate());
            assert(merged.deep_view() =~= before.push(record.deep_view()));
        },
    }
}

fn find_event(merged: &Vec<AccountKeyPackageRecord>, record: &AccountKeyPackageRecord) -> (found:
    Option<usize>)
    ensures
        match found {
            Some(i) => i < merged@.len() && first_such(
                merged.deep_view(),
                record.deep_view(),
                by_event(),
                0,
            ) == i,
            None => first_such(merged.deep_view(), record.deep_view(), by_event(), 0)
                == merged@.len(),
        },
{
    let mut i: usize = 0;
    while i < merged.len()
        invariant
            i <= merged@.len(),
            first_such(merged.deep_view(), record.deep_view(), by_event(), 0) == first_such(
                merged.deep_view(),
                record.deep_view(),
                by_event(),
                i as int,
            ),
        decreases merged.len() - i,
    {
        assert(merged.deep_view()[i as int] == merged@[i as int].deep_view());
        if !record.key_package_event_id.as_str().is_empty() && record.key_package_event_id.same(
            &merged[i].key_package_event_id,
        ) {
            return Some(i);
        }
        i += 1;
    }
    None
}

fn find_twin(merged: &Vec<AccountKeyPackageRecord>, record: &AccountKeyPackageRecord) -> (found:
    Option<usize>)
    ensures
        match found {
            Some(i) => i < merged@.len() && first_such(
                merged.deep_view(),
                record.deep_view(),
                by_twin(),
                0,
            ) == i,
            None => first_such(merged.deep_view(), record.deep_view(), by_twin(), 0)
                == merged@.len(),
        },
{
    let mut i: usize = 0;
    while i < merged.len()
        invariant
            i <= merged@.len(),
            first_such(merged.deep_view(), record.deep_view(), by_twin(), 0) == first_such(
                merged.deep_view(),
                record.deep_view(),
                by_twin(),
                i as int,
            ),
        decreases merged.len() - i,
    {
        assert(merged.deep_view()[i as int] == merged@[i as int].deep_view());
        let existing = &merged[i];
        let same_package = !record.key_package_ref_hex.as_str().is_empty()
            && record.key_package_ref_hex.same(&existing.key_package_ref_hex);
        let same_slot = record.key_package_ref_hex.as_str().is_empty()
            && existing.key_package_ref_hex.as_str().is_empty()
            && record.key_package_event_id.as_str().is_empty()
            && existing.key_package_event_id.as_str().is_empty() && record.key_package_id.same(
            &existing.key_package_id,
        );
        if existing.local && !existing.relay && (same_package || same_slot) {
            return Some(i);
        }
        i += 1;
    }
    None
}

fn is_local_copy(existing: &AccountKeyPackageRecord, record: &AccountKeyPackageRecord) -> (copy:
    bool)
    ensures
        copy == local_copy(existing.deep_view(), record.deep_view()),
{
    let event_empty = record.key_package_event_id.as_str().is_empty();
    (!event_empty && record.key_package_event_id.same(&existing.key_package_event_id)) || (
    event_empty && !record.key_package_ref_hex.as_str().is_empty()
        && record.key_package_ref_hex.same(&existing.key_package_ref_hex))
}

fn join_local(merged: &mut Vec<AccountKeyPackageRecord>, record: &AccountKeyPackageRecord)
    ensures
        final(merged).deep_view() == with_local(old(merged).deep_view(), record.deep_view()),
{
    let ghost before = merged.deep_view();
    let ghost r = record.deep_view();
    let mut matched = false;
    let mut i: usize = 0;
    while i < merged.len()
        invariant
            i <= merged@.len(),
            merged@.len() == before.len(),
            r == record.deep_view(),
            forall|j: int|
                0 <= j < before.len() ==> #[trigger] merged@[j].deep_view() == (if j < i
                    && local_copy(before[j], r) {
                    absorbed(before[j], r)
                } else {
                    before[j]
                }),
            matched == exists|j: int| 0 <= j < i && #[trigger] local_copy(before[j], r),
        decreases merged.len() - i,
    {
        assert(merged@[i as int].deep_view() == before[i as int]);
        let ghost start = merged@;
        if is_local_copy(&merged[i], record) {
            let mut existing = merged.remove(i);
            merge_record_fields(&mut existing, record);
            merged.insert(i, existing);
            assert(merged@ =~= start.update(i as int, existing));
            assert(local_copy(before[i as int], r));
            matched = true;
        }
        i += 1;
    }
    if matched {
        assert(merged.deep_view() =~= with_local(before, r));
    } else {
        assert(merged.deep_view() =~= before);
        let position = find_twin(merged, record);
        join_first(merged, record, position, Ghost(by_twin()));
    }
}

fn normalize_records(records: Vec<AccountKeyPackageRecord>) -> (out: Vec<AccountKeyPackageRecord>)
    ensures
        out.deep_view() == records.deep_view().map_values(|r: RecordContent| normalized(r)),
{
    let ghost given = records.deep_view();
    let mut source = records;
    let mut out: Vec<AccountKeyPackageRecord> = Vec::new();
    assert(given.skip(0) =~= given);
    while source.len() > 0
        invariant
            out@.len() + source@.len() == given.len(),
            source.deep_view() == given.skip(out@.len() as int),
            forall|j: int|
                0 <= j < out@.len() ==> (#[trigger] out@[j]).deep_view() == normalized(given[j]),
        decreases source.len(),
    {
        let ghost n = out@.len() as int;
        let ghost before = source.deep_view();
        let ghost items = source@;
        let mut record = source.remove(0);
        assert(before[0] == given[n]);
        assert(before[0] == items[0].deep_view());
        assert forall|j: int| 0 <= j < source@.len() implies source.deep_view()[j]
            == #[trigger] given.skip(n + 1)[j] by {
            assert(source@[j] == items[j + 1]);
            assert(before[j + 1] == items[j + 1].deep_view());
            assert(before[j + 1] == given.skip(n)[j + 1]);
        }
        assert(source.deep_view() =~= given.skip(n + 1));
        let mut relays: Vec<String> = Vec::new();
        core::mem::swap(&mut relays, &mut record.source_relays);
        record.source_relays = sort_dedup(relays);
        assert(record.deep_view() == normalized(given[n]));
        out.push(record);
    }
    assert(out.deep_view() =~= given.map_values(|r: RecordContent| normalized(r)));
    out
}

fn sort_by_identity(records: &Vec<AccountKeyPackageRecord>) -> (out: Vec<AccountKeyPackageRecord>)
    ensures
        out.deep_view() == sorted_by(records.deep_view(), identity_lt()),
{
    let ghost given = records.deep_view();
    let mut wrapped: Vec<ByIdentity> = Vec::new();
    let mut i: usize = 0;
    while i < records.len()
        invariant
            i <= records@.len(),
            given == records.deep_view(),
            wrapped@.len() == i,
            forall|j: int|
                0 <= j < i ==> (#[trigger] wrapped@[j]).record.deep_view() == given[j],
        decreases records.len() - i,
    {
        wrapped.push(ByIdentity { record: records[i].duplicate() });
        i += 1;
    }
    assert(wrapped@.map_values(identity_content()) =~= given);
    let ghost unsorted = wrapped@;
    let sorted = sort_stable(wrapped);
    proof {
        lemma_sorted_content(unsorted, identity_content(), identity_lt());
    }
    let ghost result = sorted@.map_values(identity_content());
    let mut out: Vec<AccountKeyPackageRecord> = Vec::new();
    let mut k: usize = 0;
    while k < sorted.len()
        invariant
            k <= sorted@.len(),
            result == sorted@.map_values(identity_content()),
            out@.len() == k,
            forall|j: int| 0 <= j < k ==> (#[trigger] out@[j]).deep_view() == result[j],
        decreases sorted.len() - k,
    {
        out.push(sorted[k].record.duplicate());
        k += 1;
    }
    assert(out.deep_view() =~= result);
    out
}

fn sort_by_publication(records: &Vec<AccountKeyPackageRecord>) -> (out: Vec<
    AccountKeyPackageRecord,
>)
    ensures
        out.deep_view() == sorted_by(records.deep_view(), publication_lt()),
{
    let ghost given = records.deep_view();
    let mut wrapped: Vec<ByPublication> = Vec::new();
    let mut i: usize = 0;
    while i < records.len()
        invariant
            i <= records@.len(),
            given == records.deep_view(),
            wrapped@.len() == i,
            forall|j: int|
                0 <= j < i ==> (#[trigger] wrapped@[j]).record.deep_view() == given[j],
        decreases records.len() - i,
    {
        wrapped.push(ByPublication { record: records[i].duplicate() });
        i += 1;
    }
    assert(wrapped@.map_values(publication_content()) =~= given);
    let ghost unsorted = wrapped@;
    let sorted = sort_stable(wrapped);
    proof {
        lemma_sorted_content(unsorted, publication_content(), publication_lt());
    }
    let ghost result = sorted@.map_values(publication_content());
    let mut out: Vec<AccountKeyPackageRecord> = Vec::new();
    let mut k: usize = 0;
    while k < sorted.len()
        invariant
            k <= sorted@.len(),
            result == sorted@.map_values(publication_content()),
            out@.len() == k,
            forall|j: int| 0 <= j < k ==> (#[trigger] out@[j]).deep_view() == result[j],
        decreases sorted.len() - k,
    {
        out.push(sorted[k].record.duplicate());
        k += 1;
    }
    assert(out.deep_view() =~= result);
    out
}

/// Merges what a device and its relays know of an account's key packages. Every
/// relay event stays addressable; a local record joins the records it is a copy
/// of.
pub fn merge_key_package_records(records: Vec<AccountKeyPackageRecord>) -> (out: Vec<
    AccountKeyPackageRecord,
>)
    ensures
        out.deep_view() == merged(records.deep_view()),
{
    let clean = normalize_records(records);
    let sorted = sort_by_identity(&clean);
    let ghost contents = sorted.deep_view();
    let mut merged: Vec<AccountKeyPackageRecord> = Vec::new();
    let mut i: usize = 0;
    assert(contents.take(0) =~= Seq::<RecordContent>::empty());
    assert(merged.deep_view() =~= relay_pass(contents.take(0)));
    while i < sorted.len()
        invariant
            i <= sorted@.len(),
            contents == sorted.deep_view(),
            merged.deep_view() == relay_pass(contents.take(i as int)),
        decreases sorted.len() - i,
    {
        assert(contents.take(i + 1).drop_last() =~= contents.take(i as int));
        assert(contents.take(i + 1).last() == sorted@[i as int].deep_view());
        if sorted[i].relay {
            let position = find_event(&merged, &sorted[i]);
            join_first(&mut merged, &sorted[i], position, Ghost(by_event()));
        }
        i += 1;
    }
    assert(contents.take(contents.len() as int) =~= contents);
    let ghost relayed = merged.deep_view();
    let mut k: usize = 0;
    assert(merged.deep_view() == local_pass(relayed, contents.take(0)));
    while k < sorted.len()
        invariant
            k <= sorted@.len(),
            contents == sorted.deep_view(),
            merged.deep_view() == local_pass(relayed, contents.take(k as int)),
        decreases sorted.len() - k,
    {
        assert(contents.take(k + 1).drop_last() =~= contents.take(k as int));
        assert(contents.take(k + 1).last() == sorted@[k as int].deep_view());
        if sorted[k].local {
            join_local(&mut merged, &sorted[k]);
        }
        k += 1;
    }
    assert(contents.take(contents.len() as int) =~= contents);
    sort_by_publication(&merged)
}

/// Merging does not depend on the order of its input, where records that agree in
/// everything the order looks at are equal.
pub proof fn law_merge_is_independent_of_input_order(
    left: Seq<RecordContent>,
    right: Seq<RecordContent>,
)
    requires
        left.to_multiset() == right.to_multiset(),
        forall|a: RecordContent, b: RecordContent|
            #![trigger left.contains(a), left.contains(b)]
            left.contains(a) && left.contains(b) && identity_rank(normalized(a), normalized(b)) == 0
                ==> normalized(a) == normalized(b),
    ensures
        merged(left) == merged(right),
{
    let f = |r: RecordContent| normalized(r);
    let l = left.map_values(f);
    let r = right.map_values(f);
    lemma_map_multiset(left, right, f);
    lemma_identity_weak_order();
    lemma_sorted_by(l, identity_lt());
    lemma_sorted_by(r, identity_lt());
    let a = sorted_by(l, identity_lt());
    let b = sorted_by(r, identity_lt());
    crate::order::lemma_same_elements(a, l);
    let lt = identity_lt();
    assert forall|x: RecordContent, y: RecordContent|
        #![trigger a.contains(x), a.contains(y)]
        a.contains(x) && a.contains(y) && !lt(x, y) && !lt(y, x) implies x == y by {
        lemma_identity_rank(x, y, y);
        assert(l.contains(x) && l.contains(y));
        let i = choose|i: int| 0 <= i < l.len() && l[i] == x;
        let j = choose|j: int| 0 <= j < l.len() && l[j] == y;
        assert(left.contains(left[i]) && left.contains(left[j]));
    }
    lemma_sorted_unique(a, b, identity_lt());
}

proof fn lemma_map_multiset<T, U>(left: Seq<T>, right: Seq<T>, f: spec_fn(T) -> U)
    requires
        left.to_multiset() == right.to_multiset(),
    ensures
        left.map_values(f).to_multiset() == right.map_values(f).to_multiset(),
    decreases left.len(),
{
    broadcast use vstd::seq_lib::group_to_multiset_ensures;

    crate::order::lemma_same_elements(left, right);
    if left.len() == 0 {
        assert(left.map_values(f) =~= right.map_values(f));
    } else {
        let x = left.last();
        assert(left.contains(x));
        assert(right.contains(x));
        let i = choose|i: int| 0 <= i < right.len() && right[i] == x;
        let l = left.drop_last();
        let r = right.remove(i);
        assert(left =~= l.push(x));
        assert(l.to_multiset() =~= left.to_multiset().remove(x));
        assert(r.to_multiset() =~= right.to_multiset().remove(x));
        lemma_map_multiset(l, r, f);
        assert(left.map_values(f) =~= l.map_values(f).push(f(x)));
        assert(r.map_values(f) =~= right.map_values(f).remove(i));
        assert(right.map_values(f)[i] == f(x));
        assert(right.map_values(f).remove(i).to_multiset() =~= right.map_values(
            f,
        ).to_multiset().remove(f(x)));
        assert(right.map_values(f).to_multiset().contains(f(x)));
        assert(right.map_values(f).to_multiset() =~= r.map_values(f).to_multiset().insert(f(x)));
        assert(left.map_values(f).to_multiset() =~= l.map_values(f).to_multiset().insert(f(x)));
    }
}

/// No event is named twice.
pub open spec fn events_distinct(records: Seq<RecordContent>) -> bool {
    forall|i: int, j: int|
        0 <= i < j < records.len() && (#[trigger] records[i]).key_package_event_id.len() > 0
            ==> records[i].key_package_event_id != (#[trigger] records[j]).key_package_event_id
}

/// Whether some record names an event.
pub open spec fn names_event(records: Seq<RecordContent>, event: Seq<char>) -> bool {
    exists|i: int| 0 <= i < records.len() && (#[trigger] records[i]).key_package_event_id == event
}

pub proof fn lemma_first_such(
    records: Seq<RecordContent>,
    record: RecordContent,
    chosen: spec_fn(RecordContent, RecordContent) -> bool,
    from: int,
)
    requires
        0 <= from <= records.len(),
    ensures
        from <= first_such(records, record, chosen, from) <= records.len(),
        first_such(records, record, chosen, from) < records.len() ==> chosen(
            records[first_such(records, record, chosen, from)],
            record,
        ),
        forall|i: int|
            from <= i < first_such(records, record, chosen, from) ==> !chosen(
                #[trigger] records[i],
                record,
            ),
    decreases records.len() - from,
{
    if from < records.len() && !chosen(records[from], record) {
        lemma_first_such(records, record, chosen, from + 1);
    }
}

proof fn lemma_joined_events(
    records: Seq<RecordContent>,
    record: RecordContent,
    chosen: spec_fn(RecordContent, RecordContent) -> bool,
)
    requires
        events_distinct(records),
        chosen == by_event() || record.key_package_event_id.len() == 0 || !names_event(
            records,
            record.key_package_event_id,
        ),
    ensures
        events_distinct(joined(records, record, chosen)),
        forall|event: Seq<char>|
            event.len() > 0 && #[trigger] names_event(records, event) ==> names_event(
                joined(records, record, chosen),
                event,
            ),
        chosen == by_event() ==> names_event(
            joined(records, record, chosen),
            record.key_package_event_id,
        ),
{
    lemma_first_such(records, record, chosen, 0);
    let i = first_such(records, record, chosen, 0);
    let out = joined(records, record, chosen);
    assert forall|x: int, y: int|
        0 <= x < y < out.len() && (#[trigger] out[x]).key_package_event_id.len()
            > 0 implies out[x].key_package_event_id != (#[trigger] out[y]).key_package_event_id by {
        if i < records.len() {
            if records[i].key_package_event_id.len() > 0 || (x != i && y != i) {
                assert(out[x].key_package_event_id == records[x].key_package_event_id);
                assert(out[y].key_package_event_id == records[y].key_package_event_id);
            } else {
                assert(chosen(records[i], record));
            }
        } else if y < records.len() {
            assert(records[x].key_package_event_id != records[y].key_package_event_id);
        } else {
            assert(!chosen(records[x], record));
        }
    }
    assert forall|event: Seq<char>|
        event.len() > 0 && #[trigger] names_event(records, event) implies names_event(
        out,
        event,
    ) by {
        let k = choose|k: int|
            0 <= k < records.len() && (#[trigger] records[k]).key_package_event_id == event;
        assert(out[k].key_package_event_id == event);
    }
    if chosen == by_event() {
        if i < records.len() {
            assert(chosen(records[i], record));
            assert(out[i].key_package_event_id == record.key_package_event_id);
        } else {
            assert(out[records.len() as int].key_package_event_id == record.key_package_event_id);
        }
    }
}

proof fn lemma_with_local_events(records: Seq<RecordContent>, record: RecordContent)
    requires
        events_distinct(records),
    ensures
        events_distinct(with_local(records, record)),
        forall|event: Seq<char>|
            event.len() > 0 && #[trigger] names_event(records, event) ==> names_event(
                with_local(records, record),
                event,
            ),
{
    let out = with_local(records, record);
    if has_copy(records, record) {
        assert forall|k: int| 0 <= k < records.len() implies (
        #[trigger] out[k]).key_package_event_id == records[k].key_package_event_id by {
            if local_copy(records[k], record) && records[k].key_package_event_id.len() == 0 {
                assert(record.key_package_event_id =~= records[k].key_package_event_id);
            }
        }
        assert forall|x: int, y: int|
            0 <= x < y < out.len() && (#[trigger] out[x]).key_package_event_id.len()
                > 0 implies out[x].key_package_event_id != (
        #[trigger] out[y]).key_package_event_id by {
            assert(records[x].key_package_event_id != records[y].key_package_event_id);
        }
        assert forall|event: Seq<char>|
            event.len() > 0 && #[trigger] names_event(records, event) implies names_event(
            out,
            event,
        ) by {
            let k = choose|k: int|
                0 <= k < records.len() && (#[trigger] records[k]).key_package_event_id == event;
            assert(out[k].key_package_event_id == event);
        }
    } else {
        if record.key_package_event_id.len() > 0 && names_event(
            records,
            record.key_package_event_id,
        ) {
            let k = choose|k: int|
                0 <= k < records.len() && (#[trigger] records[k]).key_package_event_id
                    == record.key_package_event_id;
            assert(local_copy(records[k], record));
        }
        lemma_joined_events(records, record, by_twin());
    }
}

proof fn lemma_relay_pass(sorted: Seq<RecordContent>)
    ensures
        events_distinct(relay_pass(sorted)),
        forall|i: int|
            0 <= i < sorted.len() && (#[trigger] sorted[i]).relay
                && sorted[i].key_package_event_id.len() > 0 ==> names_event(
                relay_pass(sorted),
                sorted[i].key_package_event_id,
            ),
    decreases sorted.len(),
{
    if sorted.len() > 0 {
        let rest = sorted.drop_last();
        lemma_relay_pass(rest);
        if sorted.last().relay {
            lemma_joined_events(relay_pass(rest), sorted.last(), by_event());
        }
        assert forall|i: int|
            0 <= i < sorted.len() && (#[trigger] sorted[i]).relay
                && sorted[i].key_package_event_id.len() > 0 implies names_event(
            relay_pass(sorted),
            sorted[i].key_package_event_id,
        ) by {
            if i < rest.len() {
                assert(rest[i] == sorted[i]);
                assert(names_event(relay_pass(rest), sorted[i].key_package_event_id));
            }
        }
    }
}

proof fn lemma_local_pass(records: Seq<RecordContent>, sorted: Seq<RecordContent>)
    requires
        events_distinct(records),
    ensures
        events_distinct(local_pass(records, sorted)),
        forall|event: Seq<char>|
            event.len() > 0 && #[trigger] names_event(records, event) ==> names_event(
                local_pass(records, sorted),
                event,
            ),
    decreases sorted.len(),
{
    if sorted.len() > 0 {
        lemma_local_pass(records, sorted.drop_last());
        let before = local_pass(records, sorted.drop_last());
        if sorted.last().local {
            lemma_with_local_events(before, sorted.last());
        }
        assert forall|event: Seq<char>|
            event.len() > 0 && #[trigger] names_event(records, event) implies names_event(
            local_pass(records, sorted),
            event,
        ) by {
            assert(names_event(before, event));
        }
    }
}

proof fn lemma_insert_events(
    records: Seq<RecordContent>,
    record: RecordContent,
    lt: spec_fn(RecordContent, RecordContent) -> bool,
)
    requires
        events_distinct(records),
        record.key_package_event_id.len() == 0 || !names_event(
            records,
            record.key_package_event_id,
        ),
    ensures
        events_distinct(insert_by(records, record, lt)),
        forall|event: Seq<char>| #[trigger]
            names_event(insert_by(records, record, lt), event) <==> names_event(records, event)
                || record.key_package_event_id == event,
    decreases records.len(),
{
    let out = insert_by(records, record, lt);
    if records.len() == 0 || !lt(records.first(), record) {
        lemma_front_events(records, record);
    } else {
        let rest = records.drop_first();
        let head = records.first();
        assert forall|event: Seq<char>| #[trigger] names_event(rest, event) implies names_event(
            records,
            event,
        ) by {
            let k = choose|k: int|
                0 <= k < rest.len() && (#[trigger] rest[k]).key_package_event_id == event;
            assert(records[k + 1].key_package_event_id == event);
        }
        assert forall|x: int, y: int|
            0 <= x < y < rest.len() && (#[trigger] rest[x]).key_package_event_id.len()
                > 0 implies rest[x].key_package_event_id != (
        #[trigger] rest[y]).key_package_event_id by {
            assert(records[x + 1].key_package_event_id != records[y + 1].key_package_event_id);
        }
        lemma_insert_events(rest, record, lt);
        let tail = insert_by(rest, record, lt);
        assert(records =~= seq![head] + rest);
        if head.key_package_event_id.len() > 0 {
            assert(names_event(records, head.key_package_event_id)) by {
                assert(records[0] == head);
            }
            if names_event(rest, head.key_package_event_id) {
                let k = choose|k: int|
                    0 <= k < rest.len() && (#[trigger] rest[k]).key_package_event_id
                        == head.key_package_event_id;
                assert(records[0].key_package_event_id != records[k + 1].key_package_event_id);
            }
            assert(!names_event(tail, head.key_package_event_id));
        }
        lemma_front_events(tail, head);
        lemma_front_events(rest, head);
    }
}

proof fn lemma_front_events(records: Seq<RecordContent>, record: RecordContent)
    requires
        events_distinct(records),
        record.key_package_event_id.len() == 0 || !names_event(
            records,
            record.key_package_event_id,
        ),
    ensures
        events_distinct(seq![record] + records),
        forall|event: Seq<char>| #[trigger]
            names_event(seq![record] + records, event) <==> names_event(records, event)
                || record.key_package_event_id == event,
{
    let out = seq![record] + records;
    assert forall|x: int, y: int|
        0 <= x < y < out.len() && (#[trigger] out[x]).key_package_event_id.len()
            > 0 implies out[x].key_package_event_id != (#[trigger] out[y]).key_package_event_id by {
        assert(out[y] == records[y - 1]);
        if x > 0 {
            assert(out[x] == records[x - 1]);
        }
    }
    assert forall|event: Seq<char>| #[trigger]
        names_event(out, event) <==> names_event(records, event) || record.key_package_event_id
            == event by {
        if names_event(out, event) {
            let k = choose|k: int|
                0 <= k < out.len() && (#[trigger] out[k]).key_package_event_id == event;
            if k > 0 {
                assert(records[k - 1].key_package_event_id == event);
            }
        }
        if names_event(records, event) {
            let k = choose|k: int|
                0 <= k < records.len() && (#[trigger] records[k]).key_package_event_id == event;
            assert(out[k + 1].key_package_event_id == event);
        }
        assert(out[0] == record);
    }
}

proof fn lemma_sorted_events(
    records: Seq<RecordContent>,
    lt: spec_fn(RecordContent, RecordContent) -> bool,
)
    requires
        events_distinct(records),
    ensures
        events_distinct(sorted_by(records, lt)),
        forall|event: Seq<char>| #[trigger]
            names_event(sorted_by(records, lt), event) <==> names_event(records, event),
    decreases records.len(),
{
    if records.len() > 0 {
        let rest = records.drop_first();
        let head = records.first();
        assert forall|x: int, y: int|
            0 <= x < y < rest.len() && (#[trigger] rest[x]).key_package_event_id.len()
                > 0 implies rest[x].key_package_event_id != (
        #[trigger] rest[y]).key_package_event_id by {
            assert(records[x + 1].key_package_event_id != records[y + 1].key_package_event_id);
        }
        lemma_sorted_events(rest, lt);
        if head.key_package_event_id.len() > 0 && names_event(rest, head.key_package_event_id) {
            let k = choose|k: int|
                0 <= k < rest.len() && (#[trigger] rest[k]).key_package_event_id
                    == head.key_package_event_id;
            assert(records[0].key_package_event_id != records[k + 1].key_package_event_id);
        }
        lemma_insert_events(sorted_by(rest, lt), head, lt);
        lemma_front_events(rest, head);
        assert(records =~= seq![head] + rest);
    }
}

/// No event is listed twice after merging.
pub proof fn lemma_merged_events_are_distinct(records: Seq<RecordContent>)
    ensures
        events_distinct(merged(records)),
{
    let f = |r: RecordContent| normalized(r);
    let clean = records.map_values(f);
    let sorted = sorted_by(clean, identity_lt());
    lemma_identity_weak_order();
    lemma_sorted_by(clean, identity_lt());
    crate::order::lemma_same_elements(sorted, clean);
    lemma_relay_pass(sorted);
    lemma_local_pass(relay_pass(sorted), sorted);
    lemma_sorted_events(local_pass(relay_pass(sorted), sorted), publication_lt());
}

} // verus!
