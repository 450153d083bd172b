//! Sets and maps over keys that are compared by content: byte identifiers and
//! text. Both keep their keys in insertion order and never hold a key twice.

use vstd::prelude::*;

verus! {

/// A value compared by content, and copied without changing that content.
pub trait Key: DeepView + Sized {
    fn same(&self, other: &Self) -> (equal: bool)
        ensures
            equal == (self.deep_view() == other.deep_view()),
    ;

    fn duplicate(&self) -> (copy: Self)
        ensures
            copy.deep_view() == self.deep_view(),
    ;
}

/// Byte strings are equal when their bytes are.
pub fn same_bytes(left: &Vec<u8>, right: &Vec<u8>) -> (equal: bool)
    ensures
        equal == (left@ == right@),
{
    if left.len() != right.len() {
        return false;
    }
    let mut i: usize = 0;
    while i < left.len()
        invariant
            i <= left.len(),
            left.len() == right.len(),
            forall|j: int| 0 <= j < i ==> left@[j] == right@[j],
        decreases left.len() - i,
    {
        if left[i] != right[i] {
            return false;
        }
        i += 1;
    }
    assert(left@ =~= right@);
    true
}

/// A copy of a byte string.
pub fn copy_bytes(bytes: &Vec<u8>) -> (copy: Vec<u8>)
    ensures
        copy@ == bytes@,
{
    let mut copy: Vec<u8> = Vec::new();
    let mut i: usize = 0;
    while i < bytes.len()
        invariant
            i <= bytes.len(),
            copy@ == bytes@.take(i as int),
        decreases bytes.len() - i,
    {
        copy.push(bytes[i]);
        assert(bytes@.take(i + 1) =~= bytes@.take(i as int).push(bytes@[i as int]));
        i += 1;
    }
    assert(bytes@.take(bytes@.len() as int) =~= bytes@);
    copy
}

impl Key for String {
    fn same(&self, other: &Self) -> (equal: bool) {
        *self == *other
    }

    fn duplicate(&self) -> (copy: Self) {
        self.clone()
    }
}

impl Key for Vec<u8> {
    fn same(&self, other: &Self) -> (equal: bool) {
        let equal = same_bytes(self, other);
        assert(self.deep_view() =~= self@);
        assert(other.deep_view() =~= other@);
        equal
    }

    fn duplicate(&self) -> (copy: Self) {
        let copy = copy_bytes(self);
        assert(self.deep_view() =~= self@);
        assert(copy.deep_view() =~= copy@);
        copy
    }
}

/// The position of the first key with the given content.
pub fn position_of<K: Key>(keys: &Vec<K>, key: &K) -> (position: Option<usize>)
    ensures
        match position {
            Some(i) => {
                &&& i < keys@.len()
                &&& keys@[i as int].deep_view() == key.deep_view()
                &&& forall|j: int| 0 <= j < i ==> keys@[j].deep_view() != key.deep_view()
            },
            None => !keys.deep_view().contains(key.deep_view()),
        },
{
    let mut i: usize = 0;
    while i < keys.len()
        invariant
            i <= keys@.len(),
            forall|j: int| 0 <= j < i ==> keys@[j].deep_view() != key.deep_view(),
        decreases keys.len() - i,
    {
        if keys[i].same(key) {
            return Some(i);
        }
        i += 1;
    }
    assert forall|j: int| 0 <= j < keys.deep_view().len() implies keys.deep_view()[j]
        != key.deep_view() by {
        assert(keys.deep_view()[j] == keys@[j].deep_view());
    }
    None
}

/// Whether a list holds a key with the given content.
pub fn list_contains<K: Key>(keys: &Vec<K>, key: &K) -> (found: bool)
    ensures
        found == keys.deep_view().contains(key.deep_view()),
{
    match position_of(keys, key) {
        Some(i) => {
            assert(keys.deep_view()[i as int] == key.deep_view());
            true
        },
        None => false,
    }
}

/// Copies every key of a list.
pub fn copy_list<K: Key>(keys: &Vec<K>) -> (copy: Vec<K>)
    ensures
        copy.deep_view() == keys.deep_view(),
{
    let mut copy: Vec<K> = Vec::new();
    let mut i: usize = 0;
    while i < keys.len()
        invariant
            i <= keys@.len(),
            copy@.len() == i,
            forall|j: int| 0 <= j < i ==> #[trigger] copy@[j].deep_view() == keys@[j].deep_view(),
        decreases keys.len() - i,
    {
        copy.push(keys[i].duplicate());
        i += 1;
    }
    assert(copy.deep_view() =~= keys.deep_view());
    copy
}

/// A set of keys.
#[derive(Debug)]
pub struct KeySet<K: Key> {
    items: Vec<K>,
}

impl<K: Key> KeySet<K> {
    #[verifier::type_invariant]
    spec fn distinct(self) -> bool {
        self.items.deep_view().no_duplicates()
    }

    /// The keys in the order in which they entered.
    pub closed spec fn sequence(&self) -> Seq<K::V> {
        self.items.deep_view()
    }

    pub open spec fn spec_contains(&self, key: K::V) -> bool {
        self.sequence().contains(key)
    }

    pub fn new() -> (set: Self)
        ensures
            set.sequence() == Seq::<K::V>::empty(),
    {
        let items: Vec<K> = Vec::new();
        assert(items.deep_view() =~= Seq::<K::V>::empty());
        KeySet { items }
    }

    pub fn len(&self) -> (len: usize)
        ensures
            len == self.sequence().len(),
            self.sequence().no_duplicates(),
    {
        proof {
            use_type_invariant(self);
        }
        self.items.len()
    }

    pub fn is_empty(&self) -> (empty: bool)
        ensures
            empty == (self.sequence().len() == 0),
    {
        self.items.len() == 0
    }

    pub fn contains(&self, key: &K) -> (found: bool)
        ensures
            found == self.spec_contains(key.deep_view()),
    {
        list_contains(&self.items, key)
    }

    /// The key at one position of the insertion order.
    pub fn key_at(&self, index: usize) -> (key: &K)
        requires
            index < self.sequence().len(),
        ensures
            key.deep_view() == self.sequence()[index as int],
    {
        &self.items[index]
    }

    /// Adds a key; returns whether it was absent.
    pub fn insert(&mut self, key: K) -> (fresh: bool)
        ensures
            fresh == !old(self).spec_contains(key.deep_view()),
            final(self).sequence() == (if fresh {
                old(self).sequence().push(key.deep_view())
            } else {
                old(self).sequence()
            }),
    {
        proof {
            use_type_invariant(&*self);
        }
        if list_contains(&self.items, &key) {
            return false;
        }
        let mut items: Vec<K> = Vec::new();
        core::mem::swap(&mut items, &mut self.items);
        let ghost before = items;
        let ghost added = key.deep_view();
        items.push(key);
        assert(items.deep_view() =~= before.deep_view().push(added));
        assert(items.deep_view().no_duplicates()) by {
            assert forall|i: int, j: int|
                0 <= i < items.deep_view().len() && 0 <= j < items.deep_view().len() && i
                    != j implies items.deep_view()[i] != items.deep_view()[j] by {
                if i == before.deep_view().len() {
                    assert(before.deep_view().contains(before.deep_view()[j]));
                }
                if j == before.deep_view().len() {
                    assert(before.deep_view().contains(before.deep_view()[i]));
                }
            }
        }
        self.items = items;
        true
    }

    /// Removes a key; returns whether it was present. The others keep their order.
    pub fn remove(&mut self, key: &K) -> (present: bool)
        ensures
            present == old(self).spec_contains(key.deep_view()),
            !present ==> final(self).sequence() == old(self).sequence(),
            present ==> final(self).sequence() == old(self).sequence().remove(
                old(self).sequence().index_of(key.deep_view()),
            ),
            forall|k: K::V|
                final(self).spec_contains(k) <==> old(self).spec_contains(k) && k
                    != key.deep_view(),
    {
        proof {
            use_type_invariant(&*self);
        }
        match position_of(&self.items, key) {
            None => false,
            Some(position) => {
                let mut items: Vec<K> = Vec::new();
                core::mem::swap(&mut items, &mut self.items);
                let ghost before = items.deep_view();
                let _ = items.remove(position);
                assert(items.deep_view() =~= before.remove(position as int));
                proof {
                    assert(before[position as int] == key.deep_view());
                    assert(before.index_of(key.deep_view()) == position as int);
                    lemma_remove_distinct(before, position as int);
                }
                self.items = items;
                true
            },
        }
    }

    /// Removes every key.
    pub fn clear(&mut self)
        ensures
            final(self).sequence() == Seq::<K::V>::empty(),
    {
        let items: Vec<K> = Vec::new();
        assert(items.deep_view() =~= Seq::<K::V>::empty());
        self.items = items;
    }

    /// Hands the keys out in insertion order.
    pub fn into_list(self) -> (keys: Vec<K>)
        ensures
            keys.deep_view() == self.sequence(),
            keys.deep_view().no_duplicates(),
    {
        proof {
            use_type_invariant(&self);
        }
        self.items
    }

    /// Copies the keys in insertion order.
    pub fn to_list(&self) -> (keys: Vec<K>)
        ensures
            keys.deep_view() == self.sequence(),
            keys.deep_view().no_duplicates(),
    {
        proof {
            use_type_invariant(self);
        }
        copy_list(&self.items)
    }
}

/// Removing one position of a list without repetitions removes exactly the key there.
pub proof fn lemma_remove_distinct<T>(keys: Seq<T>, position: int)
    requires
        keys.no_duplicates(),
        0 <= position < keys.len(),
    ensures
        keys.remove(position).no_duplicates(),
        forall|k: T|
            #![auto]
            keys.remove(position).contains(k) <==> keys.contains(k) && k != keys[position],
{
    let rest = keys.remove(position);
    assert forall|k: T| #![auto] rest.contains(k) <==> keys.contains(k) && k != keys[position] by {
        if rest.contains(k) {
            let i = choose|i: int| 0 <= i < rest.len() && rest[i] == k;
            let source = if i < position {
                i
            } else {
                i + 1
            };
            assert(keys[source] == k);
        }
        if keys.contains(k) && k != keys[position] {
            let i = choose|i: int| 0 <= i < keys.len() && keys[i] == k;
            let target = if i < position {
                i
            } else {
                i - 1
            };
            assert(rest[target] == k);
        }
    }
}

/// A map from keys to values.
#[derive(Debug)]
pub struct KeyMap<K: Key, V> {
    names: Vec<K>,
    values: Vec<V>,
}

impl<K: Key, V> KeyMap<K, V> {
    #[verifier::type_invariant]
    spec fn paired(self) -> bool {
        &&& self.names.deep_view().no_duplicates()
        &&& self.names@.len() == self.values@.len()
    }

    /// The keys in the order in which they entered.
    pub closed spec fn sequence(&self) -> Seq<K::V> {
        self.names.deep_view()
    }

    /// The values in the order of their keys.
    pub closed spec fn value_sequence(&self) -> Seq<V> {
        self.values@
    }

    pub open spec fn spec_contains(&self, key: K::V) -> bool {
        self.sequence().contains(key)
    }

    /// What a look-up of a key answers.
    pub open spec fn lookup(&self, key: K::V) -> Option<V> {
        pair_lookup(self.sequence(), self.value_sequence(), key)
    }

    pub fn new() -> (map: Self)
        ensures
            map.sequence() == Seq::<K::V>::empty(),
            map.value_sequence() == Seq::<V>::empty(),
            forall|k: K::V| map.lookup(k) == None::<V>,
    {
        let names: Vec<K> = Vec::new();
        assert(names.deep_view() =~= Seq::<K::V>::empty());
        KeyMap { names, values: Vec::new() }
    }

    pub fn len(&self) -> (len: usize)
        ensures
            len == self.sequence().len(),
            len == self.value_sequence().len(),
            self.sequence().no_duplicates(),
    {
        proof {
            use_type_invariant(self);
        }
        self.names.len()
    }

    pub fn is_empty(&self) -> (empty: bool)
        ensures
            empty == (self.sequence().len() == 0),
    {
        self.names.len() == 0
    }

    pub fn contains(&self, key: &K) -> (found: bool)
        ensures
            found == self.spec_contains(key.deep_view()),
    {
        list_contains(&self.names, key)
    }

    pub fn get(&self, key: &K) -> (value: Option<&V>)
        ensures
            match value {
                Some(v) => self.lookup(key.deep_view()) == Some(*v),
                None => self.lookup(key.deep_view()) is None,
            },
    {
        proof {
            use_type_invariant(self);
        }
        match position_of(&self.names, key) {
            Some(i) => {
                assert(self.names.deep_view()[i as int] == key.deep_view());
                assert(self.sequence().index_of(key.deep_view()) == i as int);
                Some(&self.values[i])
            },
            None => None,
        }
    }

    pub fn key_at(&self, index: usize) -> (key: &K)
        requires
            index < self.sequence().len(),
        ensures
            key.deep_view() == self.sequence()[index as int],
    {
        &self.names[index]
    }

    pub fn value_at(&self, index: usize) -> (value: &V)
        requires
            index < self.sequence().len(),
        ensures
            *value == self.value_sequence()[index as int],
            self.lookup(self.sequence()[index as int]) == Some(*value),
    {
        proof {
            use_type_invariant(self);
            assert(self.sequence().index_of(self.sequence()[index as int]) == index as int);
        }
        &self.values[index]
    }

    /// Binds a key to a value; returns whether the key was absent.
    pub fn insert(&mut self, key: K, value: V) -> (fresh: bool)
        ensures
            fresh == !old(self).spec_contains(key.deep_view()),
            final(self).sequence() == (if fresh {
                old(self).sequence().push(key.deep_view())
            } else {
                old(self).sequence()
            }),
            final(self).value_sequence() == (if fresh {
                old(self).value_sequence().push(value)
            } else {
                old(self).value_sequence().update(
                    old(self).sequence().index_of(key.deep_view()),
                    value,
                )
            }),
            forall|k: K::V|
                #[trigger] final(self).lookup(k) == (if k == key.deep_view() {
                    Some(value)
                } else {
                    old(self).lookup(k)
                }),
    {
        proof {
            use_type_invariant(&*self);
        }
        let mut names: Vec<K> = Vec::new();
        let mut values: Vec<V> = Vec::new();
        let ghost start = *self;
        let ghost bound = key.deep_view();
        let mut taken = KeyMap { names, values };
        core::mem::swap(&mut taken, self);
        proof {
            use_type_invariant(&taken);
        }
        let KeyMap { names: mut names, values: mut values } = taken;
        let ghost before = names.deep_view();
        let ghost values_before = values@;
        match position_of(&names, &key) {
            Some(i) => {
                proof {
                    assert(before[i as int] == bound);
                    assert(before.index_of(bound) == i as int);
                    lemma_map_update(before, values_before, i as int, value);
                }
                values.set(i, value);
                *self = KeyMap { names, values };
                false
            },
            None => {
                names.push(key);
                values.push(value);
                proof {
                    assert(names.deep_view() =~= before.push(bound));
                    lemma_map_push(before, values_before, bound, value);
                }
                *self = KeyMap { names, values };
                true
            },
        }
    }

    /// Removes a key; returns whether it was present.
    pub fn remove(&mut self, key: &K) -> (present: bool)
        ensures
            present == old(self).spec_contains(key.deep_view()),
            !present ==> *final(self) == *old(self),
            present ==> {
                let i = old(self).sequence().index_of(key.deep_view());
                &&& final(self).sequence() == old(self).sequence().remove(i)
                &&& final(self).value_sequence() == old(self).value_sequence().remove(i)
            },
            forall|k: K::V|
                #[trigger] final(self).lookup(k) == (if k == key.deep_view() {
                    None
                } else {
                    old(self).lookup(k)
                }),
    {
        proof {
            use_type_invariant(&*self);
        }
        match position_of(&self.names, key) {
            None => false,
            Some(i) => {
                let mut taken = KeyMap { names: Vec::new(), values: Vec::new() };
                core::mem::swap(&mut taken, self);
                proof {
                    use_type_invariant(&taken);
                }
                let KeyMap { names: mut names, values: mut values } = taken;
                let ghost before = names.deep_view();
                let ghost values_before = values@;
                let _ = names.remove(i);
                let _ = values.remove(i);
                proof {
                    assert(before[i as int] == key.deep_view());
                    assert(names.deep_view() =~= before.remove(i as int));
                    assert(before.index_of(key.deep_view()) == i as int);
                    lemma_map_remove(before, values_before, i as int);
                }
                *self = KeyMap { names, values };
                true
            },
        }
    }
}

/// What a look-up answers in a list of keys beside a list of values.
pub open spec fn pair_lookup<T, V>(keys: Seq<T>, values: Seq<V>, key: T) -> Option<V> {
    if keys.contains(key) {
        Some(values[keys.index_of(key)])
    } else {
        None
    }
}

/// Appending a fresh key binds it and leaves every other look-up as it was.
pub proof fn lemma_map_push<T, V>(keys: Seq<T>, values: Seq<V>, key: T, value: V)
    requires
        keys.no_duplicates(),
        keys.len() == values.len(),
        !keys.contains(key),
    ensures
        keys.push(key).no_duplicates(),
        forall|k: T|
            #[trigger] pair_lookup(keys.push(key), values.push(value), k) == (if k == key {
                Some(value)
            } else {
                pair_lookup(keys, values, k)
            }),
{
    let grown = keys.push(key);
    assert forall|i: int, j: int|
        0 <= i < grown.len() && 0 <= j < grown.len() && i != j implies grown[i] != grown[j] by {
        if i == keys.len() {
            assert(keys.contains(keys[j]));
        }
        if j == keys.len() {
            assert(keys.contains(keys[i]));
        }
    }
    assert forall|k: T|
        #[trigger] pair_lookup(grown, values.push(value), k) == (if k == key {
            Some(value)
        } else {
            pair_lookup(keys, values, k)
        }) by {
        if k == key {
            assert(grown[keys.len() as int] == key);
            assert(grown.index_of(key) == keys.len());
        } else if keys.contains(k) {
            let i = keys.index_of(k);
            assert(0 <= i < keys.len() && keys[i] == k);
            assert(grown[i] == k);
            assert(grown.index_of(k) == i);
        } else if grown.contains(k) {
            let i = grown.index_of(k);
            assert(keys[i] == k);
        }
    }
}

/// Replacing one value rebinds its key alone.
pub proof fn lemma_map_update<T, V>(keys: Seq<T>, values: Seq<V>, i: int, value: V)
    requires
        keys.no_duplicates(),
        keys.len() == values.len(),
        0 <= i < keys.len(),
    ensures
        forall|k: T|
            #[trigger] pair_lookup(keys, values.update(i, value), k) == (if k == keys[i] {
                Some(value)
            } else {
                pair_lookup(keys, values, k)
            }),
{
    assert forall|k: T|
        #[trigger] pair_lookup(keys, values.update(i, value), k) == (if k == keys[i] {
            Some(value)
        } else {
            pair_lookup(keys, values, k)
        }) by {
        if keys.contains(k) {
            assert(keys[keys.index_of(k)] == k);
        }
        assert(keys.index_of(keys[i]) == i);
    }
}

/// Removing one position unbinds its key alone.
pub proof fn lemma_map_remove<T, V>(keys: Seq<T>, values: Seq<V>, i: int)
    requires
        keys.no_duplicates(),
        keys.len() == values.len(),
        0 <= i < keys.len(),
    ensures
        keys.remove(i).no_duplicates(),
        forall|k: T|
            #[trigger] pair_lookup(keys.remove(i), values.remove(i), k) == (if k == keys[i] {
                None
            } else {
                pair_lookup(keys, values, k)
            }),
{
    let rest = keys.remove(i);
    lemma_remove_distinct(keys, i);
    assert forall|k: T|
        #[trigger] pair_lookup(rest, values.remove(i), k) == (if k == keys[i] {
            None
        } else {
            pair_lookup(keys, values, k)
        }) by {
        if rest.contains(k) {
            let at = rest.index_of(k);
            let source = if at < i {
                at
            } else {
                at + 1
            };
            assert(keys[source] == k);
            assert(keys.index_of(k) == source);
        }
    }
}

/// The keys that a second list also holds, in order.
pub open spec fn kept_keys<T>(keys: Seq<T>, kept: Seq<T>) -> Seq<T>
    decreases keys.len(),
{
    if keys.len() == 0 {
        keys
    } else if kept.contains(keys.last()) {
        kept_keys(keys.drop_last(), kept).push(keys.last())
    } else {
        kept_keys(keys.drop_last(), kept)
    }
}

/// The values beside the keys that a second list also holds, in order.
pub open spec fn kept_values<T, V>(keys: Seq<T>, values: Seq<V>, kept: Seq<T>) -> Seq<V>
    decreases keys.len(),
{
    if keys.len() == 0 {
        Seq::empty()
    } else if kept.contains(keys.last()) {
        kept_values(keys.drop_last(), values.drop_last(), kept).push(values.last())
    } else {
        kept_values(keys.drop_last(), values.drop_last(), kept)
    }
}

/// Keeping keys repeats nothing, keeps exactly the shared keys, and leaves their
/// look-ups as they were.
pub proof fn lemma_kept<T, V>(keys: Seq<T>, values: Seq<V>, kept: Seq<T>)
    requires
        keys.no_duplicates(),
        keys.len() == values.len(),
    ensures
        kept_keys(keys, kept).no_duplicates(),
        kept_keys(keys, kept).len() == kept_values(keys, values, kept).len(),
        kept_keys(keys, kept).len() <= keys.len(),
        kept_keys(keys, kept).len() == keys.len() ==> kept_keys(keys, kept) == keys
            && kept_values(keys, values, kept) == values,
        forall|k: T|
            #[trigger] kept_keys(keys, kept).contains(k) <==> keys.contains(k) && kept.contains(k),
        forall|k: T|
            #[trigger] pair_lookup(kept_keys(keys, kept), kept_values(keys, values, kept), k) == (
            if kept.contains(k) {
                pair_lookup(keys, values, k)
            } else {
                None
            }),
    decreases keys.len(),
{
    if keys.len() == 0 {
        assert(values =~= Seq::<V>::empty());
    } else {
        let k0 = keys.drop_last();
        let v0 = values.drop_last();
        let last = keys.last();
        assert(k0.no_duplicates());
        lemma_kept(k0, v0, kept);
        assert(!k0.contains(last)) by {
            if k0.contains(last) {
                let i = choose|i: int| 0 <= i < k0.len() && k0[i] == last;
                assert(keys[i] == keys[keys.len() - 1]);
            }
        }
        assert(keys =~= k0.push(last));
        assert(values =~= v0.push(values.last()));
        lemma_map_push(k0, v0, last, values.last());
        if kept.contains(last) {
            lemma_map_push(
                kept_keys(k0, kept),
                kept_values(k0, v0, kept),
                last,
                values.last(),
            );
        }
        assert forall|k: T| #[trigger]
            kept_keys(keys, kept).contains(k) <==> keys.contains(k) && kept.contains(k) by {
            lemma_contains_after_push(k0, last, k);
            lemma_contains_after_push(kept_keys(k0, kept), last, k);
        }
        assert forall|k: T| #[trigger]
            pair_lookup(kept_keys(keys, kept), kept_values(keys, values, kept), k) == (
            if kept.contains(k) {
                pair_lookup(keys, values, k)
            } else {
                None
            }) by {
            assert(pair_lookup(k0.push(last), v0.push(values.last()), k) == (if k == last {
                Some(values.last())
            } else {
                pair_lookup(k0, v0, k)
            }));
            assert(pair_lookup(kept_keys(k0, kept), kept_values(k0, v0, kept), k) == (
            if kept.contains(k) {
                pair_lookup(k0, v0, k)
            } else {
                None
            }));
            if kept.contains(last) {
                assert(pair_lookup(
                    kept_keys(k0, kept).push(last),
                    kept_values(k0, v0, kept).push(values.last()),
                    k,
                ) == (if k == last {
                    Some(values.last())
                } else {
                    pair_lookup(kept_keys(k0, kept), kept_values(k0, v0, kept), k)
                }));
            }
        }
    }
}

proof fn lemma_contains_after_push<T>(items: Seq<T>, item: T, x: T)
    ensures
        items.push(item).contains(x) <==> items.contains(x) || x == item,
{
    if items.contains(x) {
        let i = choose|i: int| 0 <= i < items.len() && items[i] == x;
        assert(items.push(item)[i] == x);
    }
    if x == item {
        assert(items.push(item)[items.len() as int] == x);
    }
    if items.push(item).contains(x) && x != item {
        let i = choose|i: int| 0 <= i < items.push(item).len() && items.push(item)[i] == x;
        assert(items[i] == x);
    }
}

impl<K: Key, V: Copy> KeyMap<K, V> {
    /// A copy with the same keys in the same order.
    pub fn copy(&self) -> (copy: Self)
        ensures
            copy.sequence() == self.sequence(),
            copy.value_sequence() == self.value_sequence(),
    {
        let mut copy: KeyMap<K, V> = KeyMap::new();
        let count: usize = self.len();
        let mut i: usize = 0;
        assert(self.sequence().take(0) =~= Seq::<K::V>::empty());
        assert(self.value_sequence().take(0) =~= Seq::<V>::empty());
        while i < count
            invariant
                i <= count,
                count == self.sequence().len(),
                count == self.value_sequence().len(),
                self.sequence().no_duplicates(),
                copy.sequence() == self.sequence().take(i as int),
                copy.value_sequence() == self.value_sequence().take(i as int),
            decreases count - i,
        {
            let ghost before = copy.sequence();
            assert(!before.contains(self.sequence()[i as int])) by {
                if before.contains(self.sequence()[i as int]) {
                    let j = choose|j: int|
                        0 <= j < before.len() && before[j] == self.sequence()[i as int];
                    assert(self.sequence()[j] == self.sequence()[i as int]);
                }
            }
            let _ = copy.insert(self.key_at(i).duplicate(), *self.value_at(i));
            assert(self.sequence().take(i + 1) =~= before.push(self.sequence()[i as int]));
            assert(self.value_sequence().take(i + 1) =~= self.value_sequence().take(i as int).push(
                self.value_sequence()[i as int],
            ));
            i += 1;
        }
        assert(self.sequence().take(count as int) =~= self.sequence());
        assert(self.value_sequence().take(count as int) =~= self.value_sequence());
        copy
    }

    /// Keeps the keys of a set; returns whether any went.
    pub fn retain(&mut self, kept: &KeySet<K>) -> (changed: bool)
        ensures
            final(self).sequence() == kept_keys(old(self).sequence(), kept.sequence()),
            final(self).value_sequence() == kept_values(
                old(self).sequence(),
                old(self).value_sequence(),
                kept.sequence(),
            ),
            changed == (final(self).sequence().len() != old(self).sequence().len()),
            !changed ==> final(self).sequence() == old(self).sequence()
                && final(self).value_sequence() == old(self).value_sequence(),
            forall|k: K::V|
                #[trigger] final(self).lookup(k) == (if kept.spec_contains(k) {
                    old(self).lookup(k)
                } else {
                    None
                }),
    {
        let mut out: KeyMap<K, V> = KeyMap::new();
        let count: usize = self.len();
        let mut i: usize = 0;
        let ghost keys = self.sequence();
        let ghost values = self.value_sequence();
        assert(keys.take(0) =~= Seq::<K::V>::empty());
        while i < count
            invariant
                i <= count,
                count == keys.len(),
                count == values.len(),
                keys == self.sequence(),
                values == self.value_sequence(),
                keys.no_duplicates(),
                out.sequence() == kept_keys(keys.take(i as int), kept.sequence()),
                out.value_sequence() == kept_values(
                    keys.take(i as int),
                    values.take(i as int),
                    kept.sequence(),
                ),
            decreases count - i,
        {
            assert(keys.take(i + 1).drop_last() =~= keys.take(i as int));
            assert(values.take(i + 1).drop_last() =~= values.take(i as int));
            proof {
                lemma_kept(keys.take(i as int), values.take(i as int), kept.sequence());
                assert(!keys.take(i as int).contains(keys[i as int])) by {
                    if keys.take(i as int).contains(keys[i as int]) {
                        let j = choose|j: int|
                            0 <= j < i && keys.take(i as int)[j] == keys[i as int];
                        assert(keys[j] == keys[i as int]);
                    }
                }
            }
            if kept.contains(self.key_at(i)) {
                let _ = out.insert(self.key_at(i).duplicate(), *self.value_at(i));
            }
            i += 1;
        }
        assert(keys.take(count as int) =~= keys);
        assert(values.take(count as int) =~= values);
        proof {
            lemma_kept(keys, values, kept.sequence());
        }
        let changed = out.len() != count;
        *self = out;
        changed
    }
}

/// The keys that a second list does not hold, in order.
pub open spec fn dropped_keys<T>(keys: Seq<T>, dropped: Seq<T>) -> Seq<T>
    decreases keys.len(),
{
    if keys.len() == 0 {
        keys
    } else if dropped.contains(keys.last()) {
        dropped_keys(keys.drop_last(), dropped)
    } else {
        dropped_keys(keys.drop_last(), dropped).push(keys.last())
    }
}

/// The keys of a list that a second list also holds.
pub fn keep_listed<K: Key>(keys: Vec<K>, kept: &Vec<K>) -> (out: Vec<K>)
    ensures
        out.deep_view() == kept_keys(keys.deep_view(), kept.deep_view()),
{
    let mut out: Vec<K> = Vec::new();
    let mut i: usize = 0;
    let ghost all = keys.deep_view();
    assert(all.take(0) =~= Seq::<K::V>::empty());
    assert(out.deep_view() =~= Seq::<K::V>::empty());
    while i < keys.len()
        invariant
            i <= keys@.len(),
            all == keys.deep_view(),
            out.deep_view() == kept_keys(all.take(i as int), kept.deep_view()),
        decreases keys.len() - i,
    {
        let ghost before = out.deep_view();
        assert(all.take(i + 1).drop_last() =~= all.take(i as int));
        if list_contains(kept, &keys[i]) {
            let copy = keys[i].duplicate();
            let ghost added = copy.deep_view();
            out.push(copy);
            assert(out.deep_view() =~= before.push(added));
        }
        i += 1;
    }
    assert(all.take(all.len() as int) =~= all);
    out
}

/// The keys of a list that a second list does not hold.
pub fn drop_listed<K: Key>(keys: Vec<K>, dropped: &Vec<K>) -> (out: Vec<K>)
    ensures
        out.deep_view() == dropped_keys(keys.deep_view(), dropped.deep_view()),
{
    let mut out: Vec<K> = Vec::new();
    let mut i: usize = 0;
    let ghost all = keys.deep_view();
    assert(all.take(0) =~= Seq::<K::V>::empty());
    assert(out.deep_view() =~= Seq::<K::V>::empty());
    while i < keys.len()
        invariant
            i <= keys@.len(),
            all == keys.deep_view(),
            out.deep_view() == dropped_keys(all.take(i as int), dropped.deep_view()),
        decreases keys.len() - i,
    {
        let ghost before = out.deep_view();
        assert(all.take(i + 1).drop_last() =~= all.take(i as int));
        if !list_contains(dropped, &keys[i]) {
            let copy = keys[i].duplicate();
            let ghost added = copy.deep_view();
            out.push(copy);
            assert(out.deep_view() =~= before.push(added));
        }
        i += 1;
    }
    assert(all.take(all.len() as int) =~= all);
    out
}

/// Dropping keys leaves exactly those that are not dropped.
pub proof fn lemma_dropped<T>(keys: Seq<T>, dropped: Seq<T>)
    ensures
        forall|k: T| #[trigger]
            dropped_keys(keys, dropped).contains(k) <==> keys.contains(k) && !dropped.contains(k),
        keys.no_duplicates() ==> dropped_keys(keys, dropped).no_duplicates(),
    decreases keys.len(),
{
    if keys.len() > 0 {
        let k0 = keys.drop_last();
        let last = keys.last();
        lemma_dropped(k0, dropped);
        assert(keys =~= k0.push(last));
        assert forall|k: T| #[trigger]
            dropped_keys(keys, dropped).contains(k) <==> keys.contains(k) && !dropped.contains(
                k,
            ) by {
            lemma_contains_after_push(k0, last, k);
            lemma_contains_after_push(dropped_keys(k0, dropped), last, k);
        }
        if keys.no_duplicates() {
            assert(k0.no_duplicates());
            assert(!k0.contains(last)) by {
                if k0.contains(last) {
                    let i = choose|i: int| 0 <= i < k0.len() && k0[i] == last;
                    assert(keys[i] == keys[keys.len() - 1]);
                }
            }
            let rest = dropped_keys(k0, dropped);
            assert(!rest.contains(last));
            let grown = rest.push(last);
            assert forall|i: int, j: int|
                0 <= i < grown.len() && 0 <= j < grown.len() && i != j implies grown[i]
                != grown[j] by {
                if i == rest.len() {
                    assert(rest.contains(rest[j]));
                }
                if j == rest.len() {
                    assert(rest.contains(rest[i]));
                }
            }
        }
    }
}

} // verus!
