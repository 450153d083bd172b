//! The order of byte strings and text, and stable sorting.

use crate::collections::list_contains;
use vstd::prelude::*;

verus! {

/// Lexicographic order of byte strings: a proper prefix comes first, otherwise
/// the first differing byte decides.
pub open spec fn bytes_lt(left: Seq<u8>, right: Seq<u8>) -> bool
    decreases left.len(),
{
    if right.len() == 0 {
        false
    } else if left.len() == 0 {
        true
    } else if left[0] != right[0] {
        left[0] < right[0]
    } else {
        bytes_lt(left.drop_first(), right.drop_first())
    }
}

/// Text is ordered by the bytes of its UTF-8 encoding.
pub open spec fn text_lt(left: Seq<char>, right: Seq<char>) -> bool {
    bytes_lt(vstd::utf8::encode_utf8(left), vstd::utf8::encode_utf8(right))
}

/// No byte string precedes itself.
pub proof fn lemma_bytes_lt_irreflexive(bytes: Seq<u8>)
    ensures
        !bytes_lt(bytes, bytes),
    decreases bytes.len(),
{
    if bytes.len() > 0 {
        lemma_bytes_lt_irreflexive(bytes.drop_first());
    }
}

/// The order of byte strings is transitive.
pub proof fn lemma_bytes_lt_transitive(first: Seq<u8>, second: Seq<u8>, third: Seq<u8>)
    requires
        bytes_lt(first, second),
        bytes_lt(second, third),
    ensures
        bytes_lt(first, third),
    decreases first.len(),
{
    if first.len() > 0 && first[0] == second[0] && second[0] == third[0] {
        lemma_bytes_lt_transitive(first.drop_first(), second.drop_first(), third.drop_first());
    }
}

/// Of two different byte strings one precedes the other.
pub proof fn lemma_bytes_lt_total(left: Seq<u8>, right: Seq<u8>)
    ensures
        left == right || bytes_lt(left, right) || bytes_lt(right, left),
        !(bytes_lt(left, right) && bytes_lt(right, left)),
        !(left == right && bytes_lt(left, right)),
    decreases left.len(),
{
    if left.len() > 0 && right.len() > 0 && left[0] == right[0] {
        lemma_bytes_lt_total(left.drop_first(), right.drop_first());
        if left.drop_first() == right.drop_first() {
            assert(left =~= right) by {
                assert forall|i: int| 0 <= i < left.len() implies left[i] == right[i] by {
                    if i > 0 {
                        assert(left.drop_first()[i - 1] == left[i]);
                        assert(right.drop_first()[i - 1] == right[i]);
                    }
                }
            }
        }
    } else if left.len() == 0 && right.len() == 0 {
        assert(left =~= right);
    }
}

/// The order of text is a strict total order.
pub proof fn lemma_text_lt_total(left: Seq<char>, right: Seq<char>)
    ensures
        left == right || text_lt(left, right) || text_lt(right, left),
        !(text_lt(left, right) && text_lt(right, left)),
        !(left == right && text_lt(left, right)),
{
    lemma_bytes_lt_total(vstd::utf8::encode_utf8(left), vstd::utf8::encode_utf8(right));
    vstd::utf8::encode_utf8_decode_utf8(left);
    vstd::utf8::encode_utf8_decode_utf8(right);
}

/// The order of text is transitive.
pub proof fn lemma_text_lt_transitive(first: Seq<char>, second: Seq<char>, third: Seq<char>)
    requires
        text_lt(first, second),
        text_lt(second, third),
    ensures
        text_lt(first, third),
{
    lemma_bytes_lt_transitive(
        vstd::utf8::encode_utf8(first),
        vstd::utf8::encode_utf8(second),
        vstd::utf8::encode_utf8(third),
    );
}

/// Whether one byte string precedes another.
pub fn bytes_less(left: &[u8], right: &[u8]) -> (less: bool)
    ensures
        less == bytes_lt(left@, right@),
{
    let mut i: usize = 0;
    assert(left@.skip(0) =~= left@);
    assert(right@.skip(0) =~= right@);
    while i < left.len() && i < right.len()
        invariant
            i <= left@.len(),
            i <= right@.len(),
            bytes_lt(left@, right@) == bytes_lt(left@.skip(i as int), right@.skip(i as int)),
        decreases left.len() - i,
    {
        if left[i] != right[i] {
            return left[i] < right[i];
        }
        assert(left@.skip(i as int).drop_first() =~= left@.skip(i + 1));
        assert(right@.skip(i as int).drop_first() =~= right@.skip(i + 1));
        i += 1;
    }
    i < right.len()
}

/// Whether one text precedes another.
pub fn text_less(left: &str, right: &str) -> (less: bool)
    ensures
        less == text_lt(left@, right@),
{
    bytes_less(left.as_bytes(), right.as_bytes())
}

/// Values with a strict weak order.
pub trait Ordered: Sized {
    spec fn before(&self, other: &Self) -> bool;

    /// The order is asymmetric, and being not-before is transitive.
    proof fn order_laws(first: &Self, second: &Self, third: &Self)
        ensures
            first.before(second) ==> !second.before(first),
            !first.before(second) && !second.before(third) ==> !first.before(third),
    ;

    fn precedes(&self, other: &Self) -> (earlier: bool)
        ensures
            earlier == self.before(other),
    ;
}

impl Ordered for String {
    open spec fn before(&self, other: &Self) -> bool {
        text_lt(self@, other@)
    }

    proof fn order_laws(first: &Self, second: &Self, third: &Self) {
        lemma_text_lt_total(first@, second@);
        lemma_text_lt_total(second@, third@);
        lemma_text_lt_total(first@, third@);
        if text_lt(third@, second@) && text_lt(second@, first@) {
            lemma_text_lt_transitive(third@, second@, first@);
        }
    }

    fn precedes(&self, other: &Self) -> (earlier: bool) {
        text_less(self.as_str(), other.as_str())
    }
}

/// No later element precedes an earlier one.
pub open spec fn is_sorted<T: Ordered>(items: Seq<T>) -> bool {
    forall|i: int, j: int|
        0 <= i < j < items.len() ==> !(#[trigger] items[j].before(&#[trigger] items[i]))
}

/// A sorted list with one more element, put before its equals.
pub open spec fn insert_ordered<T: Ordered>(items: Seq<T>, item: T) -> Seq<T>
    decreases items.len(),
{
    if items.len() == 0 || !items.first().before(&item) {
        seq![item] + items
    } else {
        seq![items.first()] + insert_ordered(items.drop_first(), item)
    }
}

/// The stable arrangement of a list: sorted, equals in their first order.
pub open spec fn stable_sorted<T: Ordered>(items: Seq<T>) -> Seq<T>
    decreases items.len(),
{
    if items.len() == 0 {
        items
    } else {
        insert_ordered(stable_sorted(items.drop_first()), items.first())
    }
}

proof fn lemma_insert_ordered<T: Ordered>(items: Seq<T>, item: T)
    requires
        is_sorted(items),
    ensures
        is_sorted(insert_ordered(items, item)),
        insert_ordered(items, item).to_multiset() =~= items.to_multiset().insert(item),
        insert_ordered(items, item).len() == items.len() + 1,
    decreases items.len(),
{
    broadcast use vstd::seq_lib::group_to_multiset_ensures;

    if items.len() == 0 || !items.first().before(&item) {
        let out = seq![item] + items;
        assert(out =~= seq![item] + items);
        vstd::seq_lib::lemma_multiset_commutative(seq![item], items);
        assert(seq![item] =~= Seq::<T>::empty().push(item));
        assert(seq![item].to_multiset() =~= vstd::multiset::Multiset::empty().insert(item));
        assert forall|i: int, j: int| 0 <= i < j < out.len() implies !(#[trigger] out[j].before(
            &#[trigger] out[i],
        )) by {
            if i == 0 {
                if j - 1 == 0 {
                } else {
                    assert(!items[j - 1].before(&items[0]));
                    T::order_laws(&items[j - 1], &items[0], &item);
                }
            } else {
                assert(!items[j - 1].before(&items[i - 1]));
            }
        }
    } else {
        let rest = items.drop_first();
        assert forall|i: int, j: int| 0 <= i < j < rest.len() implies !(#[trigger] rest[j].before(
            &#[trigger] rest[i],
        )) by {
            assert(!items[j + 1].before(&items[i + 1]));
        }
        lemma_insert_ordered(rest, item);
        let tail = insert_ordered(rest, item);
        let out = seq![items.first()] + tail;
        vstd::seq_lib::lemma_multiset_commutative(seq![items.first()], tail);
        vstd::seq_lib::lemma_multiset_commutative(seq![items.first()], rest);
        assert(items =~= seq![items.first()] + rest);
        assert forall|i: int, j: int| 0 <= i < j < out.len() implies !(#[trigger] out[j].before(
            &#[trigger] out[i],
        )) by {
            if i == 0 {
                let later = tail[j - 1];
                assert(tail.to_multiset().contains(later));
                assert(rest.to_multiset().insert(item).contains(later));
                if later == item {
                    T::order_laws(&items.first(), &item, &item);
                } else {
                    assert(rest.to_multiset().contains(later));
                    assert(rest.contains(later));
                    let k = choose|k: int| 0 <= k < rest.len() && rest[k] == later;
                    assert(!items[k + 1].before(&items[0]));
                }
            } else {
                assert(!tail[j - 1].before(&tail[i - 1]));
            }
        }
    }
}

/// The stable arrangement is sorted and holds the same elements.
pub proof fn lemma_stable_sorted<T: Ordered>(items: Seq<T>)
    ensures
        is_sorted(stable_sorted(items)),
        stable_sorted(items).to_multiset() =~= items.to_multiset(),
        stable_sorted(items).len() == items.len(),
    decreases items.len(),
{
    broadcast use vstd::seq_lib::group_to_multiset_ensures;

    if items.len() > 0 {
        lemma_stable_sorted(items.drop_first());
        lemma_insert_ordered(stable_sorted(items.drop_first()), items.first());
        vstd::seq_lib::lemma_multiset_commutative(seq![items.first()], items.drop_first());
        assert(items =~= seq![items.first()] + items.drop_first());
        assert(seq![items.first()] =~= Seq::<T>::empty().push(items.first()));
        assert(seq![items.first()].to_multiset() =~= vstd::multiset::Multiset::empty().insert(
            items.first(),
        ));
    }
}

/// Two lists with the same elements by count contain the same elements.
pub proof fn lemma_same_elements<T>(left: Seq<T>, right: Seq<T>)
    requires
        left.to_multiset() == right.to_multiset(),
    ensures
        left.len() == right.len(),
        forall|x: T| #![auto] left.contains(x) <==> right.contains(x),
{
    broadcast use vstd::seq_lib::group_to_multiset_ensures;

    assert(left.to_multiset().len() == left.len());
    assert(right.to_multiset().len() == right.len());
    assert forall|x: T| #![auto] left.contains(x) <==> right.contains(x) by {
        assert(left.to_multiset().contains(x) <==> left.contains(x));
        assert(right.to_multiset().contains(x) <==> right.contains(x));
    }
}

/// Sorts a list stably.
pub fn sort_stable<T: Ordered>(items: Vec<T>) -> (sorted: Vec<T>)
    ensures
        sorted@ == stable_sorted(items@),
        is_sorted(sorted@),
        sorted@.to_multiset() == items@.to_multiset(),
        sorted@.len() == items@.len(),
        forall|x: T| #![auto] sorted@.contains(x) <==> items@.contains(x),
{
    let ghost all = items@;
    let mut rest = items;
    let mut sorted: Vec<T> = Vec::new();
    assert(all.skip(all.len() as int) =~= Seq::<T>::empty());
    while rest.len() > 0
        invariant
            rest@ == all.take(rest@.len() as int),
            rest@.len() <= all.len(),
            sorted@ == stable_sorted(all.skip(rest@.len() as int)),
        decreases rest.len(),
    {
        let ghost count = rest@.len() as int;
        let ghost done = sorted@;
        let item = rest.pop().unwrap();
        assert(item == all[count - 1]);
        let mut position: usize = 0;
        assert(done.skip(0) =~= done);
        assert(done.take(0) + insert_ordered(done, item) =~= insert_ordered(done, item));
        while position < sorted.len() && sorted[position].precedes(&item)
            invariant
                sorted@ == done,
                position <= done.len(),
                insert_ordered(done, item) == done.take(position as int) + insert_ordered(
                    done.skip(position as int),
                    item,
                ),
            decreases done.len() - position,
        {
            assert(done.skip(position as int).drop_first() =~= done.skip(position + 1));
            assert(done.take(position + 1) =~= done.take(position as int)
                + seq![done[position as int]]);
            assert(done.take(position as int) + (seq![done[position as int]] + insert_ordered(
                done.skip(position + 1),
                item,
            )) =~= done.take(position + 1) + insert_ordered(done.skip(position + 1), item));
            position += 1;
        }
        assert(insert_ordered(done.skip(position as int), item) =~= seq![item] + done.skip(
            position as int,
        ));
        sorted.insert(position, item);
        assert(sorted@ =~= insert_ordered(done, item));
        assert(rest@ =~= all.take(count - 1));
        assert(all.skip(count - 1).drop_first() =~= all.skip(count));
        assert(all.skip(count - 1).first() == item);
    }
    assert(all.skip(0) =~= all);
    proof {
        lemma_stable_sorted(all);
        lemma_same_elements(sorted@, all);
    }
    sorted
}

/// Text in strictly ascending order: sorted, nothing twice.
pub open spec fn is_ascending(texts: Seq<Seq<char>>) -> bool {
    forall|i: int, j: int| 0 <= i < j < texts.len() ==> text_lt(#[trigger] texts[i], #[trigger] texts[j])
}

/// An ascending list is determined by the texts it holds.
pub proof fn lemma_ascending_unique(left: Seq<Seq<char>>, right: Seq<Seq<char>>)
    requires
        is_ascending(left),
        is_ascending(right),
        forall|t: Seq<char>| #![auto] left.contains(t) <==> right.contains(t),
    ensures
        left == right,
    decreases left.len(),
{
    if left.len() == 0 {
        if right.len() > 0 {
            assert(right.contains(right[0]));
        }
        assert(left =~= right);
    } else if right.len() == 0 {
        assert(left.contains(left[0]));
    } else {
        let a = left.last();
        let b = right.last();
        assert(left.contains(a) && right.contains(b));
        assert(right.contains(a) && left.contains(b));
        let i = choose|i: int| 0 <= i < right.len() && right[i] == a;
        let j = choose|j: int| 0 <= j < left.len() && left[j] == b;
        lemma_text_lt_total(a, b);
        assert(a == b) by {
            if i < right.len() - 1 {
                assert(text_lt(right[i], right[right.len() - 1]));
            }
            if j < left.len() - 1 {
                assert(text_lt(left[j], left[left.len() - 1]));
            }
        }
        let l = left.drop_last();
        let r = right.drop_last();
        assert forall|t: Seq<char>| #![auto] l.contains(t) <==> r.contains(t) by {
            if l.contains(t) {
                let k = choose|k: int| 0 <= k < l.len() && l[k] == t;
                assert(left[k] == t);
                assert(text_lt(left[k], left[left.len() - 1]));
                lemma_text_lt_total(t, a);
                assert(right.contains(t));
                let m = choose|m: int| 0 <= m < right.len() && right[m] == t;
                assert(r[m] == t);
            }
            if r.contains(t) {
                let k = choose|k: int| 0 <= k < r.len() && r[k] == t;
                assert(right[k] == t);
                assert(text_lt(right[k], right[right.len() - 1]));
                lemma_text_lt_total(t, a);
                assert(left.contains(t));
                let m = choose|m: int| 0 <= m < left.len() && left[m] == t;
                assert(l[m] == t);
            }
        }
        assert forall|x: int, y: int| 0 <= x < y < l.len() implies text_lt(
            #[trigger] l[x],
            #[trigger] l[y],
        ) by {
            assert(text_lt(left[x], left[y]));
        }
        assert forall|x: int, y: int| 0 <= x < y < r.len() implies text_lt(
            #[trigger] r[x],
            #[trigger] r[y],
        ) by {
            assert(text_lt(right[x], right[y]));
        }
        lemma_ascending_unique(l, r);
        assert(left =~= l.push(a));
        assert(right =~= r.push(b));
    }
}

/// An ascending list holds no text twice.
pub proof fn lemma_ascending_distinct(texts: Seq<Seq<char>>)
    requires
        is_ascending(texts),
    ensures
        texts.no_duplicates(),
{
    assert forall|i: int, j: int| 0 <= i < texts.len() && 0 <= j < texts.len() && i != j implies texts[i]
        != texts[j] by {
        lemma_text_lt_total(texts[i], texts[j]);
        if i < j {
            assert(text_lt(texts[i], texts[j]));
        } else {
            assert(text_lt(texts[j], texts[i]));
        }
    }
}

/// Sorts text and drops repetitions.
pub fn sort_dedup(texts: Vec<String>) -> (out: Vec<String>)
    ensures
        is_ascending(out.deep_view()),
        out.deep_view().no_duplicates(),
        forall|t: Seq<char>| #![auto] out.deep_view().contains(t) <==> texts.deep_view().contains(t),
        out.deep_view() == ascending_set(texts.deep_view()),
{
    let ghost given = texts;
    let sorted = sort_stable(texts);
    let mut rest: Vec<String> = sorted;
    let ghost all = rest@;
    let mut out: Vec<String> = Vec::new();
    let mut i: usize = 0;
    assert forall|t: Seq<char>| rest.deep_view().contains(t) <==> given.deep_view().contains(t) by {
        if rest.deep_view().contains(t) {
            lemma_deep_contains(rest, given, t);
        }
        if given.deep_view().contains(t) {
            lemma_deep_contains(given, rest, t);
        }
    }
    while i < rest.len()
        invariant
            i <= rest@.len(),
            rest@ == all,
            is_sorted(all),
            is_ascending(out.deep_view()),
            i > 0 ==> out@.len() > 0 && out@.last()@ == all[i - 1]@,
            forall|t: Seq<char>|
                #![auto]
                out.deep_view().contains(t) <==> rest.deep_view().take(i as int).contains(t),
        decreases rest.len() - i,
    {
        let ghost before = out.deep_view();
        let ghost added = all[i as int]@;
        assert(rest.deep_view().take(i + 1) =~= rest.deep_view().take(i as int).push(added));
        let repeated = i > 0 && rest[i - 1] == rest[i];
        if !repeated {
            out.push(rest[i].clone());
            assert(out.deep_view() =~= before.push(added));
            assert(is_ascending(out.deep_view())) by {
                assert forall|x: int, y: int| 0 <= x < y < out.deep_view().len() implies text_lt(
                    #[trigger] out.deep_view()[x],
                    #[trigger] out.deep_view()[y],
                ) by {
                    if y == before.len() {
                        assert(i > 0) by {
                            if i == 0 {
                                assert(before.contains(before[x]));
                                assert(rest.deep_view().take(0) =~= Seq::empty());
                            }
                        }
                        let last = before[before.len() - 1];
                        assert(last == all[i - 1]@);
                        assert(!all[i as int].before(&all[i - 1]));
                        lemma_text_lt_total(last, added);
                        assert(text_lt(last, added));
                        if x < before.len() - 1 {
                            assert(text_lt(before[x], last));
                            lemma_text_lt_transitive(before[x], last, added);
                        }
                    } else {
                        assert(text_lt(before[x], before[y]));
                    }
                }
            }
            assert forall|t: Seq<char>|
                #![auto]
                out.deep_view().contains(t) <==> rest.deep_view().take(i + 1).contains(t) by {
                lemma_push_contains(before, added, t);
                lemma_push_contains(rest.deep_view().take(i as int), added, t);
            }
        } else {
            assert forall|t: Seq<char>|
                #![auto]
                out.deep_view().contains(t) <==> rest.deep_view().take(i + 1).contains(t) by {
                lemma_push_contains(rest.deep_view().take(i as int), added, t);
                assert(rest.deep_view().take(i as int)[i - 1] == added);
            }
        }
        i += 1;
    }
    assert(rest.deep_view().take(rest@.len() as int) =~= rest.deep_view());
    proof {
        lemma_ascending_distinct(out.deep_view());
        lemma_ascending_set(out.deep_view(), given.deep_view());
    }
    out
}

proof fn lemma_deep_contains(left: Vec<String>, right: Vec<String>, t: Seq<char>)
    requires
        forall|x: String| #![auto] left@.contains(x) <==> right@.contains(x),
        left.deep_view().contains(t),
    ensures
        right.deep_view().contains(t),
{
    let i = choose|i: int| 0 <= i < left.deep_view().len() && left.deep_view()[i] == t;
    assert(left@.contains(left@[i]));
    assert(right@.contains(left@[i]));
    let j = choose|j: int| 0 <= j < right@.len() && right@[j] == left@[i];
    assert(right.deep_view()[j] == t);
}

/// A list with one more element holds that element and what it held.
pub proof fn lemma_push_contains<T>(items: Seq<T>, item: T, x: T)
    ensures
        items.push(item).contains(x) <==> items.contains(x) || x == item,
{
    if items.contains(x) {
        let i = choose|i: int| 0 <= i < items.len() && items[i] == x;
        assert(items.push(item)[i] == x);
    }
    if x == item {
        assert(items.push(item)[items.len() as int] == x);
    }
    if items.push(item).contains(x) && x != item {
        let i = choose|i: int| 0 <= i < items.push(item).len() && items.push(item)[i] == x;
        assert(items[i] == x);
    }
}

/// Appends a text unless the list already holds it.
pub fn push_unique_text(texts: &mut Vec<String>, text: String)
    ensures
        final(texts).deep_view() == push_unique(old(texts).deep_view(), text@),
{
    let ghost before = texts.deep_view();
    if !list_contains(texts, &text) {
        texts.push(text);
        assert(texts.deep_view() =~= before.push(text@));
    }
}

/// A list with one more element, unless it was there already.
pub open spec fn push_unique<T>(items: Seq<T>, item: T) -> Seq<T> {
    if items.contains(item) {
        items
    } else {
        items.push(item)
    }
}

/// The elements of `more` that are new, appended in order.
pub open spec fn extend_unique<T>(items: Seq<T>, more: Seq<T>) -> Seq<T>
    decreases more.len(),
{
    if more.len() == 0 {
        items
    } else {
        push_unique(extend_unique(items, more.drop_last()), more.last())
    }
}

/// Appends every text of `more` that the list does not hold yet.
pub fn push_unique_texts(texts: &mut Vec<String>, more: &Vec<String>)
    ensures
        final(texts).deep_view() == extend_unique(old(texts).deep_view(), more.deep_view()),
{
    let ghost before = texts.deep_view();
    let mut i: usize = 0;
    assert(more.deep_view().take(0) =~= Seq::<Seq<char>>::empty());
    while i < more.len()
        invariant
            i <= more@.len(),
            texts.deep_view() == extend_unique(before, more.deep_view().take(i as int)),
        decreases more.len() - i,
    {
        push_unique_text(texts, more[i].clone());
        assert(more.deep_view().take(i + 1).drop_last() =~= more.deep_view().take(i as int));
        i += 1;
    }
    assert(more.deep_view().take(more@.len() as int) =~= more.deep_view());
}

/// Appending new elements repeats nothing and holds exactly both lists' elements.
pub proof fn lemma_extend_unique<T>(items: Seq<T>, more: Seq<T>)
    ensures
        items.no_duplicates() ==> extend_unique(items, more).no_duplicates(),
        forall|x: T|
            #![auto]
            extend_unique(items, more).contains(x) <==> items.contains(x) || more.contains(x),
        extend_unique(items, more).len() <= items.len() + more.len(),
        extend_unique(items, more).len() >= items.len(),
        extend_unique(items, more).take(items.len() as int) == items,
    decreases more.len(),
{
    if more.len() == 0 {
        assert(items.take(items.len() as int) =~= items);
    } else {
        lemma_extend_unique(items, more.drop_last());
        let prefix = extend_unique(items, more.drop_last());
        assert(more =~= more.drop_last().push(more.last()));
        assert forall|x: T|
            #![auto]
            extend_unique(items, more).contains(x) <==> items.contains(x) || more.contains(x) by {
            lemma_push_contains(more.drop_last(), more.last(), x);
            lemma_push_contains(prefix, more.last(), x);
        }
        if items.no_duplicates() && !prefix.contains(more.last()) {
            let grown = prefix.push(more.last());
            assert forall|i: int, j: int|
                0 <= i < grown.len() && 0 <= j < grown.len() && i != j implies grown[i]
                != grown[j] by {
                if i == prefix.len() {
                    assert(prefix.contains(prefix[j]));
                }
                if j == prefix.len() {
                    assert(prefix.contains(prefix[i]));
                }
            }
        }
        assert(extend_unique(items, more).take(items.len() as int) =~= prefix.take(
            items.len() as int,
        ));
    }
}

/// A list with one more element, put before its equals, by a relation.
pub open spec fn insert_by<T>(items: Seq<T>, item: T, lt: spec_fn(T, T) -> bool) -> Seq<T>
    decreases items.len(),
{
    if items.len() == 0 || !lt(items.first(), item) {
        seq![item] + items
    } else {
        seq![items.first()] + insert_by(items.drop_first(), item, lt)
    }
}

/// The stable arrangement of a list by a relation.
pub open spec fn sorted_by<T>(items: Seq<T>, lt: spec_fn(T, T) -> bool) -> Seq<T>
    decreases items.len(),
{
    if items.len() == 0 {
        items
    } else {
        insert_by(sorted_by(items.drop_first(), lt), items.first(), lt)
    }
}

/// No later element precedes an earlier one, by a relation.
pub open spec fn is_sorted_by<T>(items: Seq<T>, lt: spec_fn(T, T) -> bool) -> bool {
    forall|i: int, j: int|
        0 <= i < j < items.len() ==> !lt(#[trigger] items[j], #[trigger] items[i])
}

/// The relation is asymmetric, and being not-before is transitive.
pub open spec fn is_weak_order<T>(lt: spec_fn(T, T) -> bool) -> bool {
    &&& forall|a: T, b: T| #[trigger] lt(a, b) ==> !lt(b, a)
    &&& forall|a: T, b: T, c: T|
        #![trigger lt(a, b), lt(b, c)]
        !lt(a, b) && !lt(b, c) ==> !lt(a, c)
}

proof fn lemma_insert_by<T>(items: Seq<T>, item: T, lt: spec_fn(T, T) -> bool)
    requires
        is_sorted_by(items, lt),
        is_weak_order(lt),
    ensures
        is_sorted_by(insert_by(items, item, lt), lt),
        insert_by(items, item, lt).to_multiset() =~= items.to_multiset().insert(item),
        insert_by(items, item, lt).len() == items.len() + 1,
    decreases items.len(),
{
    broadcast use vstd::seq_lib::group_to_multiset_ensures;

    if items.len() == 0 || !lt(items.first(), item) {
        let out = seq![item] + items;
        vstd::seq_lib::lemma_multiset_commutative(seq![item], items);
        assert(seq![item] =~= Seq::<T>::empty().push(item));
        assert(seq![item].to_multiset() =~= vstd::multiset::Multiset::empty().insert(item));
        assert forall|i: int, j: int| 0 <= i < j < out.len() implies !lt(
            #[trigger] out[j],
            #[trigger] out[i],
        ) by {
            if i == 0 {
                if j > 1 {
                    assert(!lt(items[j - 1], items[0]));
                    assert(!lt(items[0], item));
                }
            } else {
                assert(!lt(items[j - 1], items[i - 1]));
            }
        }
    } else {
        let rest = items.drop_first();
        assert forall|i: int, j: int| 0 <= i < j < rest.len() implies !lt(
            #[trigger] rest[j],
            #[trigger] rest[i],
        ) by {
            assert(!lt(items[j + 1], items[i + 1]));
        }
        lemma_insert_by(rest, item, lt);
        let tail = insert_by(rest, item, lt);
        let out = seq![items.first()] + tail;
        vstd::seq_lib::lemma_multiset_commutative(seq![items.first()], tail);
        vstd::seq_lib::lemma_multiset_commutative(seq![items.first()], rest);
        assert(items =~= seq![items.first()] + rest);
        assert forall|i: int, j: int| 0 <= i < j < out.len() implies !lt(
            #[trigger] out[j],
            #[trigger] out[i],
        ) by {
            if i == 0 {
                let later = tail[j - 1];
                assert(tail.to_multiset().contains(later));
                assert(rest.to_multiset().insert(item).contains(later));
                if later == item {
                    assert(lt(items.first(), item));
                } else {
                    assert(rest.to_multiset().contains(later));
                    assert(rest.contains(later));
                    let k = choose|k: int| 0 <= k < rest.len() && rest[k] == later;
                    assert(!lt(items[k + 1], items[0]));
                }
            } else {
                assert(!lt(tail[j - 1], tail[i - 1]));
            }
        }
    }
}

/// The stable arrangement by a weak order is sorted and holds the same elements.
pub proof fn lemma_sorted_by<T>(items: Seq<T>, lt: spec_fn(T, T) -> bool)
    requires
        is_weak_order(lt),
    ensures
        is_sorted_by(sorted_by(items, lt), lt),
        sorted_by(items, lt).to_multiset() =~= items.to_multiset(),
        sorted_by(items, lt).len() == items.len(),
    decreases items.len(),
{
    broadcast use vstd::seq_lib::group_to_multiset_ensures;

    if items.len() > 0 {
        lemma_sorted_by(items.drop_first(), lt);
        lemma_insert_by(sorted_by(items.drop_first(), lt), items.first(), lt);
        vstd::seq_lib::lemma_multiset_commutative(seq![items.first()], items.drop_first());
        assert(items =~= seq![items.first()] + items.drop_first());
        assert(seq![items.first()] =~= Seq::<T>::empty().push(items.first()));
        assert(seq![items.first()].to_multiset() =~= vstd::multiset::Multiset::empty().insert(
            items.first(),
        ));
    }
}

/// Two sorted lists with the same elements are equal, where elements that tie are equal.
pub proof fn lemma_sorted_unique<T>(left: Seq<T>, right: Seq<T>, lt: spec_fn(T, T) -> bool)
    requires
        is_sorted_by(left, lt),
        is_sorted_by(right, lt),
        left.to_multiset() == right.to_multiset(),
        forall|a: T, b: T|
            #![trigger left.contains(a), left.contains(b)]
            left.contains(a) && left.contains(b) && !lt(a, b) && !lt(b, a) ==> a == b,
    ensures
        left == right,
    decreases left.len(),
{
    broadcast use vstd::seq_lib::group_to_multiset_ensures;

    lemma_same_elements(left, right);
    if left.len() == 0 {
        assert(left =~= right);
    } else {
        let a = left.first();
        let b = right.first();
        assert(left.contains(a) && right.contains(b));
        assert(right.contains(a) && left.contains(b));
        let i = choose|i: int| 0 <= i < right.len() && right[i] == a;
        let j = choose|j: int| 0 <= j < left.len() && left[j] == b;
        assert(a == b) by {
            if i > 0 && j > 0 {
                assert(!lt(right[i], right[0]));
                assert(!lt(left[j], left[0]));
            }
        }
        let l = left.drop_first();
        let r = right.drop_first();
        assert(left =~= seq![a] + l);
        assert(right =~= seq![b] + r);
        vstd::seq_lib::lemma_multiset_commutative(seq![a], l);
        vstd::seq_lib::lemma_multiset_commutative(seq![b], r);
        assert(l.to_multiset() =~= r.to_multiset()) by {
            assert(left.to_multiset() =~= seq![a].to_multiset().add(l.to_multiset()));
            assert(right.to_multiset() =~= seq![b].to_multiset().add(r.to_multiset()));
            assert forall|x: T| #[trigger] l.to_multiset().count(x) == r.to_multiset().count(x) by {
                assert(left.to_multiset().count(x) == right.to_multiset().count(x));
                assert(seq![a].to_multiset().add(l.to_multiset()).count(x)
                    == seq![a].to_multiset().count(x) + l.to_multiset().count(x));
                assert(seq![b].to_multiset().add(r.to_multiset()).count(x)
                    == seq![b].to_multiset().count(x) + r.to_multiset().count(x));
            }
        }
        assert forall|x: int, y: int| 0 <= x < y < l.len() implies !lt(
            #[trigger] l[y],
            #[trigger] l[x],
        ) by {
            assert(!lt(left[y + 1], left[x + 1]));
        }
        assert forall|x: int, y: int| 0 <= x < y < r.len() implies !lt(
            #[trigger] r[y],
            #[trigger] r[x],
        ) by {
            assert(!lt(right[y + 1], right[x + 1]));
        }
        assert forall|x: T, y: T|
            #![trigger l.contains(x), l.contains(y)]
            l.contains(x) && l.contains(y) && !lt(x, y) && !lt(y, x) implies x == y by {
            let m = choose|m: int| 0 <= m < l.len() && l[m] == x;
            let n = choose|n: int| 0 <= n < l.len() && l[n] == y;
            assert(left[m + 1] == x && left[n + 1] == y);
            assert(left.contains(x) && left.contains(y));
        }
        lemma_sorted_unique(l, r, lt);
    }
}

/// Sorting and reading off content commute, where the content decides the order.
pub proof fn lemma_sorted_content<T: Ordered, U>(
    items: Seq<T>,
    content: spec_fn(T) -> U,
    lt: spec_fn(U, U) -> bool,
)
    requires
        forall|a: T, b: T| #[trigger] a.before(&b) == lt(content(a), content(b)),
    ensures
        stable_sorted(items).map_values(content) == sorted_by(items.map_values(content), lt),
    decreases items.len(),
{
    if items.len() == 0 {
        assert(items.map_values(content) =~= Seq::<U>::empty());
        assert(stable_sorted(items).map_values(content) =~= Seq::<U>::empty());
    } else {
        lemma_sorted_content(items.drop_first(), content, lt);
        lemma_insert_content(stable_sorted(items.drop_first()), items.first(), content, lt);
        assert(items.map_values(content).drop_first() =~= items.drop_first().map_values(content));
    }
}

proof fn lemma_insert_content<T: Ordered, U>(
    items: Seq<T>,
    item: T,
    content: spec_fn(T) -> U,
    lt: spec_fn(U, U) -> bool,
)
    requires
        forall|a: T, b: T| #[trigger] a.before(&b) == lt(content(a), content(b)),
    ensures
        insert_ordered(items, item).map_values(content) == insert_by(
            items.map_values(content),
            content(item),
            lt,
        ),
    decreases items.len(),
{
    if items.len() == 0 || !items.first().before(&item) {
        assert(insert_ordered(items, item).map_values(content) =~= seq![content(item)]
            + items.map_values(content));
        if items.len() > 0 {
            assert(items.map_values(content).first() == content(items.first()));
        }
    } else {
        lemma_insert_content(items.drop_first(), item, content, lt);
        assert(items.map_values(content).drop_first() =~= items.drop_first().map_values(content));
        assert(insert_ordered(items, item).map_values(content) =~= seq![content(items.first())]
            + insert_ordered(items.drop_first(), item).map_values(content));
    }
}

/// The ascending list of the texts that a list holds.
pub open spec fn ascending_set(texts: Seq<Seq<char>>) -> Seq<Seq<char>> {
    choose|out: Seq<Seq<char>>| #[trigger]
        is_ascending(out) && (forall|t: Seq<char>|
            #![auto]
            out.contains(t) <==> texts.contains(t))
}

/// A list is the ascending set of another as soon as it is ascending and holds
/// the same texts.
pub proof fn lemma_ascending_set(out: Seq<Seq<char>>, texts: Seq<Seq<char>>)
    requires
        is_ascending(out),
        forall|t: Seq<char>| #![auto] out.contains(t) <==> texts.contains(t),
    ensures
        out == ascending_set(texts),
        ascending_set(texts).no_duplicates(),
{
    let chosen = ascending_set(texts);
    assert(is_ascending(chosen) && (forall|t: Seq<char>|
        #![auto]
        chosen.contains(t) <==> texts.contains(t)));
    lemma_ascending_unique(out, chosen);
    lemma_ascending_distinct(out);
}

spec fn insert_text(texts: Seq<Seq<char>>, text: Seq<char>) -> Seq<Seq<char>>
    decreases texts.len(),
{
    if texts.len() == 0 || text_lt(text, texts[0]) {
        seq![text] + texts
    } else if texts[0] == text {
        texts
    } else {
        seq![texts[0]] + insert_text(texts.drop_first(), text)
    }
}

proof fn lemma_insert_text(texts: Seq<Seq<char>>, text: Seq<char>)
    requires
        is_ascending(texts),
    ensures
        is_ascending(insert_text(texts, text)),
        forall|t: Seq<char>|
            #![auto]
            insert_text(texts, text).contains(t) <==> texts.contains(t) || t == text,
    decreases texts.len(),
{
    let out = insert_text(texts, text);
    if texts.len() == 0 || text_lt(text, texts[0]) {
        assert forall|i: int, j: int| 0 <= i < j < out.len() implies text_lt(
            #[trigger] out[i],
            #[trigger] out[j],
        ) by {
            assert(out[j] == texts[j - 1]);
            if i == 0 {
                if j > 1 {
                    lemma_text_lt_transitive(text, texts[0], texts[j - 1]);
                }
            } else {
                assert(out[i] == texts[i - 1]);
            }
        }
        assert forall|t: Seq<char>| #![auto] out.contains(t) <==> texts.contains(t) || t == text by {
            lemma_front_contains(texts, text, t);
        }
    } else if texts[0] != text {
        let rest = texts.drop_first();
        assert forall|i: int, j: int| 0 <= i < j < rest.len() implies text_lt(
            #[trigger] rest[i],
            #[trigger] rest[j],
        ) by {
            assert(text_lt(texts[i + 1], texts[j + 1]));
        }
        lemma_insert_text(rest, text);
        let tail = insert_text(rest, text);
        lemma_text_lt_total(text, texts[0]);
        assert forall|i: int, j: int| 0 <= i < j < out.len() implies text_lt(
            #[trigger] out[i],
            #[trigger] out[j],
        ) by {
            assert(out[j] == tail[j - 1]);
            if i == 0 {
                assert(tail.contains(tail[j - 1]));
                if tail[j - 1] != text {
                    assert(rest.contains(tail[j - 1]));
                    let k = choose|k: int| 0 <= k < rest.len() && rest[k] == tail[j - 1];
                    assert(text_lt(texts[0], texts[k + 1]));
                }
            } else {
                assert(out[i] == tail[i - 1]);
            }
        }
        assert(texts =~= seq![texts[0]] + rest);
        assert forall|t: Seq<char>| #![auto] out.contains(t) <==> texts.contains(t) || t == text by {
            lemma_front_contains(tail, texts[0], t);
            lemma_front_contains(rest, texts[0], t);
        }
    } else {
        assert(texts.contains(texts[0]));
    }
}

proof fn lemma_front_contains<T>(items: Seq<T>, item: T, x: T)
    ensures
        (seq![item] + items).contains(x) <==> items.contains(x) || x == item,
{
    let out = seq![item] + items;
    assert(out[0] == item);
    if items.contains(x) {
        let i = choose|i: int| 0 <= i < items.len() && items[i] == x;
        assert(out[i + 1] == x);
    }
    if out.contains(x) {
        let i = choose|i: int| 0 <= i < out.len() && out[i] == x;
        if i > 0 {
            assert(items[i - 1] == x);
        }
    }
}

/// Every list has an ascending set.
pub proof fn lemma_ascending_set_exists(texts: Seq<Seq<char>>)
    ensures
        is_ascending(ascending_set(texts)),
        ascending_set(texts).no_duplicates(),
        forall|t: Seq<char>| #![auto] ascending_set(texts).contains(t) <==> texts.contains(t),
    decreases texts.len(),
{
    if texts.len() == 0 {
        let none = Seq::<Seq<char>>::empty();
        lemma_ascending_set(none, texts);
    } else {
        let rest = texts.drop_first();
        lemma_ascending_set_exists(rest);
        let out = insert_text(ascending_set(rest), texts[0]);
        lemma_insert_text(ascending_set(rest), texts[0]);
        assert(texts =~= seq![texts[0]] + rest);
        assert forall|t: Seq<char>| #![auto] out.contains(t) <==> texts.contains(t) by {
            lemma_front_contains(rest, texts[0], t);
        }
        lemma_ascending_set(out, texts);
    }
}

} // verus!
