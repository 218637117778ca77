//! A map that keeps its keys in order.
use vstd::prelude::*;

use crate::base::table::TableKey;

verus! {

/// Whether one key comes before another: the first component that differs decides.
#[verifier::opaque]
pub open spec fn key_before(left: TableKey, right: TableKey) -> bool {
    if left.0 != right.0 {
        left.0 < right.0
    } else if left.1 != right.1 {
        left.1 < right.1
    } else if left.2 != right.2 {
        left.2 < right.2
    } else if left.3 != right.3 {
        left.3 < right.3
    } else if left.4 != right.4 {
        left.4 < right.4
    } else {
        left.5 < right.5
    }
}

/// The order of keys is total and strict.
pub proof fn key_order_is_total(left: TableKey, middle: TableKey, right: TableKey)
    ensures
        !key_before(left, left),
        key_before(left, middle) && key_before(middle, right) ==> key_before(left, right),
        left != right ==> key_before(left, right) || key_before(right, left),
        !(key_before(left, right) && key_before(right, left)),
{
    reveal(key_before);
}

pub fn comes_before(left: TableKey, right: TableKey) -> (before: bool)
    ensures
        before == key_before(left, right),
{
    proof {
        reveal(key_before);
    }
    if left.0 != right.0 {
        left.0 < right.0
    } else if left.1 != right.1 {
        left.1 < right.1
    } else if left.2 != right.2 {
        left.2 < right.2
    } else if left.3 != right.3 {
        left.3 < right.3
    } else if left.4 != right.4 {
        left.4 < right.4
    } else {
        left.5 < right.5
    }
}

/// Whether keys stand in strictly ascending order.
pub open spec fn ascending(keys: Seq<TableKey>) -> bool {
    forall|i: int, j: int| #![trigger keys[i], keys[j]] 0 <= i < j < keys.len() ==> key_before(keys[i], keys[j])
}

/// Values under keys, in the order of the keys.
pub struct SortedTable<V> {
    pub keys: Vec<TableKey>,
    pub values: Vec<V>,
}

impl<V: Copy> SortedTable<V> {
    pub open spec fn wf(&self) -> bool {
        &&& self.keys@.len() == self.values@.len()
        &&& ascending(self.keys@)
    }

    pub open spec fn view(&self) -> Map<TableKey, V> {
        Map::new(|key: TableKey| self.keys@.contains(key), |key: TableKey| self.values@[self.keys@.index_of(key)])
    }

    pub open spec fn at(&self, key: TableKey) -> Option<V> {
        if self.view().dom().contains(key) {
            Some(self.view()[key])
        } else {
            None
        }
    }

    pub proof fn lemma_index(&self, i: int)
        requires
            self.wf(),
            0 <= i < self.keys@.len(),
        ensures
            self.keys@.index_of(self.keys@[i]) == i,
            self.view().dom().contains(self.keys@[i]),
            self.view()[self.keys@[i]] == self.values@[i],
            self.at(self.keys@[i]) == Some(self.values@[i]),
    {
        let key = self.keys@[i];
        let found = self.keys@.index_of(key);
        assert(self.keys@.contains(key));
        assert(0 <= found < self.keys@.len() && self.keys@[found] == key);
        key_order_is_total(key, key, key);
        if found < i {
            assert(key_before(self.keys@[found], self.keys@[i]));
        }
        if i < found {
            assert(key_before(self.keys@[i], self.keys@[found]));
        }
    }

    pub fn new() -> (table: SortedTable<V>)
        ensures
            table.wf(),
            table.view() == Map::<TableKey, V>::empty(),
            table.values@.len() == 0,
    {
        let table = SortedTable { keys: Vec::new(), values: Vec::new() };
        assert(table.view() =~= Map::<TableKey, V>::empty());
        table
    }

    pub fn len(&self) -> (length: usize)
        requires
            self.wf(),
        ensures
            length == self.values@.len(),
    {
        self.values.len()
    }

    /// Where a key stands, or would stand, and whether it is there.
    fn position(&self, key: TableKey) -> (place: (usize, bool))
        requires
            self.wf(),
        ensures
            place.0 <= self.keys@.len(),
            place.1 == self.view().dom().contains(key),
            place.1 ==> place.0 < self.keys@.len() && self.keys@[place.0 as int] == key,
            !place.1 ==> forall|i: int|
                #![trigger self.keys@[i]]
                0 <= i < self.keys@.len() ==> if i < place.0 {
                    key_before(self.keys@[i], key)
                } else {
                    key_before(key, self.keys@[i])
                },
    {
        let mut at: usize = 0;
        while at < self.keys.len()
            invariant
                self.wf(),
                at <= self.keys@.len(),
                forall|i: int| #![trigger self.keys@[i]] 0 <= i < at ==> key_before(self.keys@[i], key),
            decreases self.keys@.len() - at,
        {
            let there = self.keys[at];
            if !comes_before(there, key) {
                proof {
                    key_order_is_total(there, there, key);
                    key_order_is_total(key, key, there);
                }
                if !comes_before(key, there) {
                    assert(self.keys@[at as int] == key);
                    assert(self.keys@.contains(key));
                    return (at, true);
                }
                proof {
                    assert forall|i: int| #![trigger self.keys@[i]] at <= i < self.keys@.len() implies key_before(
                        key,
                        self.keys@[i],
                    ) by {
                        key_order_is_total(key, there, self.keys@[i]);
                        if i > at {
                            assert(key_before(self.keys@[at as int], self.keys@[i]));
                        }
                    }
                    assert forall|i: int| #![trigger self.keys@[i]] 0 <= i < self.keys@.len() implies self.keys@[i]
                        != key by {
                        key_order_is_total(key, key, key);
                    }
                }
                return (at, false);
            }
            at = at + 1;
        }
        proof {
            assert forall|i: int| #![trigger self.keys@[i]] 0 <= i < self.keys@.len() implies self.keys@[i] != key by {
                key_order_is_total(key, key, key);
            }
        }
        (at, false)
    }

    pub fn get(&self, key: TableKey) -> (value: Option<V>)
        requires
            self.wf(),
        ensures
            value == self.at(key),
    {
        let (at, found) = self.position(key);
        if found {
            proof {
                self.lemma_index(at as int);
            }
            Some(self.values[at])
        } else {
            None
        }
    }

    /// Puts a value under a key and returns the one that was there.
    pub fn insert(&mut self, key: TableKey, value: V) -> (before: Option<V>)
        requires
            old(self).wf(),
        ensures
            final(self).wf(),
            final(self).view() == old(self).view().insert(key, value),
            before == old(self).at(key),
    {
        let ghost start = *self;
        let (at, found) = self.position(key);
        if found {
            let before = self.values[at];
            self.values.set(at, value);
            proof {
                start.lemma_index(at as int);
                assert forall|k: TableKey| #![trigger self.view()[k]] self.view().dom().contains(k) implies self.view()[k]
                    == start.view().insert(key, value)[k] by {
                    let i = self.keys@.index_of(k);
                    self.lemma_index(i);
                    start.lemma_index(i);
                }
                assert(self.view() =~= start.view().insert(key, value));
            }
            Some(before)
        } else {
            self.keys.insert(at, key);
            self.values.insert(at, value);
            proof {
                let old_keys = start.keys@;
                let keys = self.keys@;
                assert(keys == old_keys.insert(at as int, key));
                assert forall|i: int, j: int| #![trigger keys[i], keys[j]] 0 <= i < j < keys.len() implies key_before(
                    keys[i],
                    keys[j],
                ) by {
                    let a = if i < at { i } else { i - 1 };
                    let b = if j < at { j } else { j - 1 };
                    if i == at {
                        assert(keys[j] == old_keys[b]);
                    } else if j == at {
                        assert(keys[i] == old_keys[a]);
                    } else {
                        assert(keys[i] == old_keys[a] && keys[j] == old_keys[b]);
                    }
                }
                assert(self.wf());
                assert forall|k: TableKey| self.keys@.contains(k) <==> (k == key || start.keys@.contains(k)) by {
                    if self.keys@.contains(k) && k != key {
                        let i = self.keys@.index_of(k);
                        let a = if i < at { i } else { i - 1 };
                        assert(start.keys@[a] == k);
                    }
                    if start.keys@.contains(k) {
                        let a = start.keys@.index_of(k);
                        let i = if a < at { a } else { a + 1 };
                        assert(self.keys@[i] == k);
                    }
                    if k == key {
                        assert(self.keys@[at as int] == key);
                    }
                }
                assert forall|k: TableKey| #![trigger self.view()[k]] self.view().dom().contains(k) implies self.view()[k]
                    == start.view().insert(key, value)[k] by {
                    let i = self.keys@.index_of(k);
                    self.lemma_index(i);
                    if k == key {
                        self.lemma_index(at as int);
                    } else {
                        let a = if i < at { i } else { i - 1 };
                        assert(start.keys@[a] == k);
                        start.lemma_index(a);
                    }
                }
                assert(self.view() =~= start.view().insert(key, value));
            }
            None
        }
    }

    /// Takes a key out and returns the value that was under it.
    pub fn remove(&mut self, key: TableKey) -> (value: Option<V>)
        requires
            old(self).wf(),
        ensures
            final(self).wf(),
            final(self).view() == old(self).view().remove(key),
            value == old(self).at(key),
            value is None ==> *final(self) == *old(self),
    {
        let ghost start = *self;
        let (at, found) = self.position(key);
        if found {
            let _ = self.keys.remove(at);
            let value = self.values.remove(at);
            proof {
                start.lemma_index(at as int);
                let keys = self.keys@;
                let old_keys = start.keys@;
                assert(keys == old_keys.remove(at as int));
                assert forall|i: int, j: int| #![trigger keys[i], keys[j]] 0 <= i < j < keys.len() implies key_before(
                    keys[i],
                    keys[j],
                ) by {
                    let a = if i < at { i } else { i + 1 };
                    let b = if j < at { j } else { j + 1 };
                    assert(keys[i] == old_keys[a] && keys[j] == old_keys[b]);
                }
                assert(self.wf());
                assert forall|k: TableKey| self.keys@.contains(k) <==> (k != key && start.keys@.contains(k)) by {
                    if self.keys@.contains(k) {
                        let i = self.keys@.index_of(k);
                        let a = if i < at { i } else { i + 1 };
                        assert(start.keys@[a] == k);
                        start.lemma_index(a);
                    }
                    if start.keys@.contains(k) && k != key {
                        let a = start.keys@.index_of(k);
                        let i = if a < at { a } else { a - 1 };
                        assert(self.keys@[i] == k);
                    }
                }
                assert forall|k: TableKey| #![trigger self.view()[k]] self.view().dom().contains(k) implies self.view()[k]
                    == start.view().remove(key)[k] by {
                    let i = self.keys@.index_of(k);
                    self.lemma_index(i);
                    let a = if i < at { i } else { i + 1 };
                    assert(start.keys@[a] == k);
                    start.lemma_index(a);
                }
                assert(self.view() =~= start.view().remove(key));
            }
            Some(value)
        } else {
            assert(start.view().remove(key) =~= start.view());
            None
        }
    }
    /// Takes out every key that begins with `part`.
    pub fn remove_all(&mut self, part: (u64, u128, u128))
        requires
            old(self).wf(),
        ensures
            final(self).wf(),
            final(self).view() == without_part(old(self).view(), part),
    {
        let ghost start = *self;
        let mut kept: SortedTable<V> = SortedTable::new();
        let mut at: usize = 0;
        while at < self.keys.len()
            invariant
                *self == start,
                start.wf(),
                kept.wf(),
                at <= start.keys@.len(),
                forall|k: TableKey|
                    #![trigger kept.view().dom().contains(k)]
                    kept.view().dom().contains(k) <==> !begins(k, part) && exists|i: int|
                        #![trigger start.keys@[i]]
                        0 <= i < at && start.keys@[i] == k,
                forall|k: TableKey|
                    #![trigger kept.view()[k]]
                    kept.view().dom().contains(k) ==> kept.view()[k] == start.view()[k],
            decreases start.keys@.len() - at,
        {
            let key = self.keys[at];
            let ghost before = kept.view();
            if !(key.0 == part.0 && key.1 == part.1 && key.2 == part.2) {
                let value = self.values[at];
                proof {
                    start.lemma_index(at as int);
                }
                let _ = kept.insert(key, value);
            }
            proof {
                assert forall|k: TableKey| kept.view().dom().contains(k) <==> !begins(k, part) && exists|i: int|
                    #![trigger start.keys@[i]]
                    0 <= i < at + 1 && start.keys@[i] == k by {
                    if before.dom().contains(k) {
                        let i = choose|i: int| #![trigger start.keys@[i]] 0 <= i < at && start.keys@[i] == k;
                        assert(start.keys@[i] == k);
                    }
                    if k == key {
                        assert(start.keys@[at as int] == k);
                    }
                }
            }
            at = at + 1;
        }
        proof {
            let expected = without_part(start.view(), part);
            assert forall|k: TableKey| kept.view().dom().contains(k) <==> expected.dom().contains(k) by {
                if start.view().dom().contains(k) {
                    let i = start.keys@.index_of(k);
                    assert(start.keys@[i] == k);
                }
                if kept.view().dom().contains(k) {
                    let i = choose|i: int| #![trigger start.keys@[i]] 0 <= i < at && start.keys@[i] == k;
                    assert(start.keys@[i] == k);
                }
            }
            assert(kept.view() =~= expected);
        }
        *self = kept;
    }
}

/// Whether a key begins with some components.
pub open spec fn begins(key: TableKey, part: (u64, u128, u128)) -> bool {
    key.0 == part.0 && key.1 == part.1 && key.2 == part.2
}

/// A map without the keys that begin with `part`.
pub open spec fn without_part<V>(map: Map<TableKey, V>, part: (u64, u128, u128)) -> Map<TableKey, V> {
    Map::new(|key: TableKey| map.dom().contains(key) && !begins(key, part), |key: TableKey| map[key])
}

/// Two ordered maps that hold the same hold it in the same order.
pub proof fn sorted_tables_are_unique<V: Copy>(left: SortedTable<V>, right: SortedTable<V>)
    requires
        left.wf(),
        right.wf(),
        left.view() == right.view(),
    ensures
        left.keys@ == right.keys@,
        left.values@ == right.values@,
    decreases left.keys@.len(),
{
    assert forall|k: TableKey| left.keys@.contains(k) == right.keys@.contains(k) by {
        assert(left.view().dom().contains(k) == left.keys@.contains(k));
        assert(right.view().dom().contains(k) == right.keys@.contains(k));
    }
    lemma_same_keys(left.keys@, right.keys@);
    assert forall|i: int| 0 <= i < left.values@.len() implies left.values@[i] == right.values@[i] by {
        left.lemma_index(i);
        right.lemma_index(i);
        assert(left.view()[left.keys@[i]] == right.view()[left.keys@[i]]);
    }
    assert(left.values@ =~= right.values@);
}

proof fn lemma_same_keys(left: Seq<TableKey>, right: Seq<TableKey>)
    requires
        ascending(left),
        ascending(right),
        forall|k: TableKey| left.contains(k) == right.contains(k),
    ensures
        left == right,
    decreases left.len(),
{
    if left.len() == 0 {
        if right.len() > 0 {
            assert(right.contains(right[0]));
        }
        assert(left =~= right);
    } else {
        assert(left.contains(left.last()));
        assert(right.contains(left.last()));
        assert(right.len() > 0);
        assert(right.contains(right.last()));
        assert(left.contains(right.last()));
        let i = left.index_of(right.last());
        let j = right.index_of(left.last());
        key_order_is_total(left.last(), right.last(), left.last());
        if i < left.len() - 1 {
            assert(key_before(left[i], left[left.len() - 1]));
        }
        if j < right.len() - 1 {
            assert(key_before(right[j], right[right.len() - 1]));
        }
        assert(left.last() == right.last());
        let shorter_left = left.drop_last();
        let shorter_right = right.drop_last();
        assert forall|k: TableKey| shorter_left.contains(k) == shorter_right.contains(k) by {
            key_order_is_total(k, k, k);
            if shorter_left.contains(k) {
                let a = shorter_left.index_of(k);
                assert(left[a] == k);
                assert(left.contains(k));
                let b = right.index_of(k);
                assert(key_before(left[a], left[left.len() - 1]));
                assert(b < right.len() - 1);
                assert(shorter_right[b] == k);
            }
            if shorter_right.contains(k) {
                let b = shorter_right.index_of(k);
                assert(right[b] == k);
                assert(right.contains(k));
                let a = left.index_of(k);
                assert(key_before(right[b], right[right.len() - 1]));
                assert(a < left.len() - 1);
                assert(shorter_left[a] == k);
            }
        }
        lemma_same_keys(shorter_left, shorter_right);
        assert(left =~= shorter_left.push(left.last()));
        assert(right =~= shorter_right.push(right.last()));
    }
}

/// A key leads to the value that it was entered with, and to nothing where it was not.
pub proof fn entries_are_found_by_their_key<V: Copy>(table: SortedTable<V>, key: TableKey, value: V)
    ensures
        table.at(key) == Some(value) <==> table.view().dom().contains(key) && table.view()[key] == value,
        table.at(key) is None <==> !table.view().dom().contains(key),
{
}

/// Exactly the keys that begin with a part are gone without it.
pub proof fn only_what_begins_with_a_part_is_gone<V>(
    map: Map<TableKey, V>,
    part: (u64, u128, u128),
    rest: (u64, u128, u128),
    key: TableKey,
)
    ensures
        !without_part(map, part).dom().contains((part.0, part.1, part.2, rest.0, rest.1, rest.2)),
        key.0 != part.0 || key.1 != part.1 || key.2 != part.2 ==> (without_part(map, part).dom().contains(key)
            <==> map.dom().contains(key)),
        without_part(map, part).dom().contains(key) ==> without_part(map, part)[key] == map[key],
{
}

} // verus!
