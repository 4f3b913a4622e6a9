//! Tables: keys with one value each, in the order in which the keys were first inserted.

use crate::text::same_text;
use vstd::prelude::*;

verus! {

/// A type whose values can be keys of a [`Table`]. Two keys are the same when their views are.
pub trait Key: View + Sized {
    /// Whether the two keys are the same.
    fn same_key(&self, other: &Self) -> (r: bool)
        ensures
            r == (self@ == other@),
    ;
}

impl Key for String {
    fn same_key(&self, other: &Self) -> (r: bool) {
        same_text(self.as_str(), other.as_str())
    }
}

/// No two entries have the same key.
pub open spec fn distinct_keys<K: View, V>(entries: Seq<(K, V)>) -> bool {
    forall|i: int, j: int|
        0 <= i < j < entries.len() ==> #[trigger] entries[i].0@ != #[trigger] entries[j].0@
}

/// The map that the entries make when they are inserted one after the other: of two entries with
/// the same key, the later one counts.
pub open spec fn entries_map<K: View, V>(entries: Seq<(K, V)>) -> Map<K::V, V>
    decreases entries.len(),
{
    if entries.len() == 0 {
        Map::empty()
    } else {
        entries_map(entries.drop_last()).insert(entries.last().0@, entries.last().1)
    }
}

/// The map that the pairs make when they are inserted one after the other.
pub open spec fn later_wins<A, B>(pairs: Seq<(A, B)>) -> Map<A, B>
    decreases pairs.len(),
{
    if pairs.len() == 0 {
        Map::empty()
    } else {
        later_wins(pairs.drop_last()).insert(pairs.last().0, pairs.last().1)
    }
}

/// One of the entries has the key `key`.
pub open spec fn has_key<K: View, V>(entries: Seq<(K, V)>, key: K) -> bool {
    exists|i: int| 0 <= i < entries.len() && (#[trigger] entries[i]).0@ == key@
}

/// The entries after `key` was given the value `value`: an entry with the key gets the value and
/// stays as it is otherwise, a new entry comes last.
pub open spec fn inserted<K: View, V>(entries: Seq<(K, V)>, key: K, value: V) -> Seq<(K, V)> {
    if has_key(entries, key) {
        entries.map_values(
            |entry: (K, V)|
                if entry.0@ == key@ {
                    (entry.0, value)
                } else {
                    entry
                },
        )
    } else {
        entries.push((key, value))
    }
}

/// The entries after those of `added` were inserted one after the other.
pub open spec fn all_inserted<K: View, V>(entries: Seq<(K, V)>, added: Seq<(K, V)>) -> Seq<(K, V)>
    decreases added.len(),
{
    if added.len() == 0 {
        entries
    } else {
        inserted(all_inserted(entries, added.drop_last()), added.last().0, added.last().1)
    }
}

/// However many entries are inserted, the keys that are there keep their places and stay as they
/// are written.
pub proof fn keys_stay_as_written<K: View, V>(entries: Seq<(K, V)>, added: Seq<(K, V)>)
    ensures
        entries.len() <= all_inserted(entries, added).len(),
        forall|i: int|
            0 <= i < entries.len() ==> (#[trigger] all_inserted(entries, added)[i]).0
                == entries[i].0,
    decreases added.len(),
{
    if 0 < added.len() {
        keys_stay_as_written(entries, added.drop_last());
    }
}

/// The map with the text of each value.
pub open spec fn text_map<A>(map: Map<A, String>) -> Map<A, Seq<char>> {
    map.map_values(|s: String| s@)
}

/// The keys of the map are the keys of the entries, and its value for a key is the value of the
/// last entry with that key.
pub proof fn lemma_entries_map<K: View, V>(entries: Seq<(K, V)>)
    ensures
        forall|k: K::V| #[trigger]
            entries_map(entries).contains_key(k) <==> exists|i: int|
                0 <= i < entries.len() && (#[trigger] entries[i]).0@ == k,
        forall|i: int|
            0 <= i < entries.len() && (forall|j: int|
                i < j < entries.len() ==> #[trigger] entries[j].0@ != entries[i].0@)
                ==> entries_map(entries)[(#[trigger] entries[i]).0@] == entries[i].1,
    decreases entries.len(),
{
    if 0 < entries.len() {
        let before = entries.drop_last();
        lemma_entries_map(before);
        let last = entries.last();
        assert(entries_map(entries) == entries_map(before).insert(last.0@, last.1));
        assert forall|k: K::V|
            #[trigger] entries_map(entries).contains_key(k) <==> exists|i: int|
                0 <= i < entries.len() && (#[trigger] entries[i]).0@ == k by {
            if entries_map(entries).contains_key(k) {
                if k == last.0@ {
                    assert(entries[entries.len() - 1].0@ == k);
                } else {
                    assert(entries_map(before).contains_key(k));
                    let i = choose|i: int| 0 <= i < before.len() && (#[trigger] before[i]).0@ == k;
                    assert(entries[i].0@ == k);
                }
            }
            if exists|i: int| 0 <= i < entries.len() && (#[trigger] entries[i]).0@ == k {
                let i = choose|i: int| 0 <= i < entries.len() && (#[trigger] entries[i]).0@ == k;
                if i < before.len() {
                    assert(before[i].0@ == k);
                    assert(entries_map(before).contains_key(k));
                }
            }
        }
        assert forall|i: int|
            0 <= i < entries.len() && (forall|j: int|
                i < j < entries.len() ==> #[trigger] entries[j].0@ != entries[i].0@) implies
            entries_map(entries)[(#[trigger] entries[i]).0@] == entries[i].1 by {
            if i < before.len() {
                assert(before[i] == entries[i]);
                assert(entries[entries.len() - 1].0@ != entries[i].0@);
                assert forall|j: int| i < j < before.len() implies #[trigger] before[j].0@
                    != before[i].0@ by {
                    assert(before[j] == entries[j]);
                }
            }
        }
    }
}

/// Inserting the entries of `a` and then those of `b` lets the entries of `b` count.
pub proof fn lemma_entries_map_concat<K: View, V>(a: Seq<(K, V)>, b: Seq<(K, V)>)
    ensures
        entries_map(a + b) == entries_map(a).union_prefer_right(entries_map(b)),
    decreases b.len(),
{
    if b.len() == 0 {
        assert(a + b == a);
        assert(entries_map(a).union_prefer_right(entries_map(b)) == entries_map(a));
    } else {
        lemma_entries_map_concat(a, b.drop_last());
        assert((a + b).drop_last() == a + b.drop_last());
        assert(entries_map(a + b) == entries_map(a).union_prefer_right(entries_map(b)));
    }
}

/// Keys with one value each.
#[derive(Debug)]
pub struct Table<K: Key, V> {
    entries: Vec<(K, V)>,
}

impl<K: Key, V> View for Table<K, V> {
    type V = Map<K::V, V>;

    closed spec fn view(&self) -> Map<K::V, V> {
        entries_map(self.entries@)
    }
}

impl<K: Key, V> Table<K, V> {
    #[verifier::type_invariant]
    spec fn wf(self) -> bool {
        distinct_keys(self.entries@)
    }

    /// The entries in table order.
    pub closed spec fn entries(&self) -> Seq<(K, V)> {
        self.entries@
    }

    /// The view of a table is the map of its entries.
    pub proof fn lemma_view(&self)
        ensures
            self@ == entries_map(self.entries()),
    {
    }

    /// A table without entries.
    pub fn new() -> (r: Self)
        ensures
            r@ == Map::<K::V, V>::empty(),
            r.entries() == Seq::<(K, V)>::empty(),
    {
        Table { entries: Vec::new() }
    }

    /// The number of entries.
    pub fn len(&self) -> (r: usize)
        ensures
            r == self.entries().len(),
    {
        self.entries.len()
    }

    /// The entry at position `i` of the table order.
    pub fn entry(&self, i: usize) -> (r: &(K, V))
        requires
            i < self.entries().len(),
        ensures
            *r == self.entries()[i as int],
    {
        &self.entries[i]
    }

    /// The position of the entry with the key `key`.
    fn position(entries: &Vec<(K, V)>, key: &K) -> (r: Option<usize>)
        ensures
            match r {
                Some(i) => i < entries@.len() && entries@[i as int].0@ == key@,
                None => forall|i: int| 0 <= i < entries@.len() ==> (#[trigger] entries@[i]).0@ != key@,
            },
    {
        let mut i: usize = 0;
        while i < entries.len()
            invariant
                i <= entries@.len(),
                forall|k: int| 0 <= k < i ==> (#[trigger] entries@[k]).0@ != key@,
            decreases entries@.len() - i,
        {
            if entries[i].0.same_key(key) {
                return Some(i);
            }
            i = i + 1;
        }
        None
    }

    /// The value of `key`, if the table has that key.
    pub fn get(&self, key: &K) -> (r: Option<&V>)
        ensures
            match r {
                Some(value) => self@.contains_key(key@) && self@[key@] == *value,
                None => !self@.contains_key(key@),
            },
    {
        proof {
            use_type_invariant(self);
            lemma_entries_map(self.entries@);
        }
        match Self::position(&self.entries, key) {
            Some(i) => {
                assert(self.entries@[i as int].0@ == key@);
                Some(&self.entries[i].1)
            },
            None => None,
        }
    }

    /// Whether the table has the key `key`.
    pub fn contains_key(&self, key: &K) -> (r: bool)
        ensures
            r == self@.contains_key(key@),
    {
        self.get(key).is_some()
    }

    /// Gives `key` the value `value`, in place of the value it had. A key that is there stays as
    /// it is written, a new key comes last.
    pub fn insert(&mut self, key: K, value: V)
        ensures
            final(self)@ == old(self)@.insert(key@, value),
            final(self).entries() == inserted(old(self).entries(), key, value),
    {
        proof {
            use_type_invariant(&*self);
        }
        let mut entries: Vec<(K, V)> = Vec::new();
        std::mem::swap(&mut entries, &mut self.entries);
        let ghost before = entries@;
        proof {
            lemma_entries_map(before);
        }
        match Self::position(&entries, &key) {
            Some(i) => {
                let (first, _) = entries.remove(i);
                entries.insert(i, (first, value));
                proof {
                    assert(entries@ == before.update(i as int, (first, value)));
                    lemma_entries_map(entries@);
                    let now = entries_map(entries@);
                    let then = entries_map(before).insert(key@, value);
                    assert forall|k: K::V| now.contains_key(k) == then.contains_key(k) by {
                        if now.contains_key(k) {
                            let j = choose|j: int|
                                0 <= j < entries@.len() && (#[trigger] entries@[j]).0@ == k;
                            assert(before[j].0@ == k);
                        }
                        if then.contains_key(k) && k != key@ {
                            let j = choose|j: int|
                                0 <= j < before.len() && (#[trigger] before[j]).0@ == k;
                            assert(entries@[j].0@ == k);
                        }
                        assert(entries@[i as int].0@ == key@);
                    }
                    assert forall|a: int, b: int| 0 <= a < b < entries@.len() implies #[trigger]
                    entries@[a].0@ != #[trigger] entries@[b].0@ by {
                        assert(before[a].0@ != before[b].0@);
                    }
                    assert forall|k: K::V| now.contains_key(k) implies now[k] == then[k] by {
                        let j = choose|j: int|
                            0 <= j < entries@.len() && (#[trigger] entries@[j]).0@ == k;
                        assert(before[j].0@ == k);
                        assert(before[i as int].0@ == key@);
                    }
                    assert(now == then);
                    assert forall|j: int|
                        0 <= j < before.len() && (#[trigger] before[j]).0@ == key@ implies j == i by {
                        if j < i {
                            assert(before[j].0@ != before[i as int].0@);
                        }
                        if i < j {
                            assert(before[i as int].0@ != before[j].0@);
                        }
                    }
                    assert(has_key(before, key));
                    assert(entries@ == inserted(before, key, value));
                }
            },
            None => {
                entries.push((key, value));
                assert(entries@.drop_last() == before);
            },
        }
        self.entries = entries;
    }

    /// Takes `key` and its value out of the table.
    pub fn remove(&mut self, key: &K) -> (r: Option<V>)
        ensures
            final(self)@ == old(self)@.remove(key@),
            match r {
                Some(value) => old(self)@.contains_key(key@) && old(self)@[key@] == value,
                None => !old(self)@.contains_key(key@),
            },
    {
        proof {
            use_type_invariant(&*self);
        }
        let mut entries: Vec<(K, V)> = Vec::new();
        std::mem::swap(&mut entries, &mut self.entries);
        let ghost before = entries@;
        proof {
            lemma_entries_map(before);
        }
        match Self::position(&entries, key) {
            Some(i) => {
                let entry = entries.remove(i);
                proof {
                    let after = entries@;
                    lemma_entries_map(after);
                    assert forall|a: int, b: int| 0 <= a < b < after.len() implies #[trigger]
                    after[a].0@ != #[trigger] after[b].0@ by {
                        let a1 = if a < i { a } else { a + 1 };
                        let b1 = if b < i { b } else { b + 1 };
                        assert(before[a1].0@ != before[b1].0@);
                    }
                    let now = entries_map(after);
                    let then = entries_map(before).remove(key@);
                    assert forall|k: K::V| now.contains_key(k) == then.contains_key(k) by {
                        if now.contains_key(k) {
                            let j = choose|j: int|
                                0 <= j < after.len() && (#[trigger] after[j]).0@ == k;
                            let j1 = if j < i { j } else { j + 1 };
                            assert(before[j1].0@ == k);
                            assert(before[i as int].0@ == key@);
                        }
                        if then.contains_key(k) {
                            let j = choose|j: int|
                                0 <= j < before.len() && (#[trigger] before[j]).0@ == k;
                            let j1 = if j < i { j } else { j - 1 };
                            assert(after[j1].0@ == k);
                        }
                    }
                    assert forall|k: K::V| now.contains_key(k) implies now[k] == then[k] by {
                        let j = choose|j: int|
                            0 <= j < after.len() && (#[trigger] after[j]).0@ == k;
                        let j1 = if j < i { j } else { j + 1 };
                        assert(before[j1].0@ == k);
                    }
                    assert(now == then);
                    assert(before[i as int].0@ == key@);
                }
                self.entries = entries;
                Some(entry.1)
            },
            None => {
                assert(entries_map(before).remove(key@) == entries_map(before));
                self.entries = entries;
                None
            },
        }
    }

    /// The table that the entries make when they are inserted one after the other.
    pub fn from_entries(entries: Vec<(K, V)>) -> (r: Self)
        ensures
            r@ == entries_map(entries@),
            r.entries() == all_inserted(Seq::empty(), entries@),
            distinct_keys(entries@) ==> r.entries() == entries@,
    {
        let mut r = Table::new();
        let ghost all = entries@;
        for entry in it: entries
            invariant
                it.seq() == all,
                r@ == entries_map(all.take(it.index())),
                r.entries() == all_inserted(Seq::empty(), all.take(it.index())),
                distinct_keys(all) ==> r.entries() == all.take(it.index()),
        {
            proof {
                let i = it.index();
                assert(all[i] == entry);
                assert(all.take(i + 1).drop_last() == all.take(i));
                if distinct_keys(all) {
                    assert(!has_key(r.entries(), entry.0)) by {
                        if has_key(r.entries(), entry.0) {
                            let j = choose|j: int|
                                0 <= j < all.take(i).len() && (#[trigger] all.take(i)[j]).0@
                                    == entry.0@;
                            assert(all[j].0@ != all[i].0@);
                        }
                    }
                    assert(all.take(i + 1) == all.take(i).push(entry));
                }
            }
            r.insert(entry.0, entry.1);
        }
        assert(all.take(all.len() as int) == all);
        r
    }

    /// The entries in table order.
    pub fn into_entries(self) -> (r: Vec<(K, V)>)
        ensures
            r@ == self.entries(),
            distinct_keys(r@),
            entries_map(r@) == self@,
    {
        proof {
            use_type_invariant(&self);
        }
        self.entries
    }

    /// The table with the entries of both tables, in which the values of `over` count. A key of
    /// both is written as in this table.
    pub fn merge(self, over: Self) -> (r: Self)
        ensures
            r@ == self@.union_prefer_right(over@),
            r.entries() == all_inserted(self.entries(), over.entries()),
    {
        let ghost base = self.entries@;
        let ghost added = over.entries@;
        let mut r = self;
        for entry in it: over.into_entries()
            invariant
                it.seq() == added,
                r@ == entries_map(base + added.take(it.index())),
                r.entries() == all_inserted(base, added.take(it.index())),
        {
            proof {
                let i = it.index();
                assert(added.take(i + 1).drop_last() == added.take(i));
                assert((base + added.take(i + 1)).drop_last() == base + added.take(i));
            }
            r.insert(entry.0, entry.1);
        }
        proof {
            assert(added.take(added.len() as int) == added);
            lemma_entries_map_concat(base, added);
        }
        r
    }
}

impl Table<String, String> {
    /// A table with the same keys and values.
    pub fn copied(&self) -> (r: Self)
        ensures
            r@ == self@,
    {
        let mut r = Table::new();
        let ghost all = self.entries();
        let mut i: usize = 0;
        while i < self.len()
            invariant
                i <= all.len(),
                all == self.entries(),
                r@ == entries_map(all.take(i as int)),
            decreases all.len() - i,
        {
            let entry = self.entry(i);
            assert(all.take(i + 1).drop_last() == all.take(i as int));
            r.insert(entry.0.clone(), entry.1.clone());
            i = i + 1;
        }
        assert(all.take(all.len() as int) == all);
        r
    }
}

/// Of pairs with one key, the last one counts.
pub proof fn last_pair_counts<A, B>(pairs: Seq<(A, B)>, i: int)
    requires
        0 <= i < pairs.len(),
        forall|j: int| i < j < pairs.len() ==> (#[trigger] pairs[j]).0 != pairs[i].0,
    ensures
        later_wins(pairs).contains_key(pairs[i].0),
        later_wins(pairs)[pairs[i].0] == pairs[i].1,
    decreases pairs.len(),
{
    if i < pairs.len() - 1 {
        let before = pairs.drop_last();
        assert forall|j: int| i < j < before.len() implies (#[trigger] before[j]).0 != before[i].0 by {
            assert(before[j] == pairs[j]);
        }
        last_pair_counts(before, i);
        assert(pairs[pairs.len() - 1].0 != pairs[i].0);
    }
}

/// The key of every pair is a key of the map that the pairs make.
pub proof fn pairs_have_their_keys<A, B>(pairs: Seq<(A, B)>, i: int)
    requires
        0 <= i < pairs.len(),
    ensures
        later_wins(pairs).contains_key(pairs[i].0),
    decreases pairs.len(),
{
    if i < pairs.len() - 1 {
        pairs_have_their_keys(pairs.drop_last(), i);
        assert(pairs.drop_last()[i] == pairs[i]);
    }
}

/// The map that pairs make has no keys but theirs.
pub proof fn keys_are_those_of_the_pairs<A, B>(pairs: Seq<(A, B)>, key: A)
    requires
        later_wins(pairs).contains_key(key),
    ensures
        exists|i: int| 0 <= i < pairs.len() && (#[trigger] pairs[i]).0 == key,
    decreases pairs.len(),
{
    if 0 < pairs.len() {
        if pairs.last().0 == key {
            assert(pairs[pairs.len() - 1].0 == key);
        } else {
            let before = pairs.drop_last();
            keys_are_those_of_the_pairs(before, key);
            let i = choose|i: int| 0 <= i < before.len() && (#[trigger] before[i]).0 == key;
            assert(pairs[i].0 == key);
        }
    }
}

/// A table that was made of another one and of one that overrides it has the keys of both and no
/// others; where both have a key, the overriding one's value counts.
pub proof fn merged_table_has_both<K: Key, V>(base: Table<K, V>, over: Table<K, V>, r: Table<K, V>)
    requires
        call_ensures(Table::<K, V>::merge, (base, over), r),
    ensures
        forall|k: K::V| #[trigger]
            r@.contains_key(k) <==> base@.contains_key(k) || over@.contains_key(k),
        forall|k: K::V| #[trigger] over@.contains_key(k) ==> r@[k] == over@[k],
        forall|k: K::V| #[trigger]
            base@.contains_key(k) && !over@.contains_key(k) ==> r@[k] == base@[k],
        base.entries().len() <= r.entries().len(),
        forall|i: int|
            0 <= i < base.entries().len() ==> (#[trigger] r.entries()[i]).0
                == base.entries()[i].0,
{
    keys_stay_as_written(base.entries(), over.entries());
}

/// A table made of entries has their keys and no others, and of entries with one key it has the
/// value of the last one. Entries with different keys stay as they are, in their order.
pub proof fn last_entry_counts<K: Key, V>(entries: Vec<(K, V)>, r: Table<K, V>)
    requires
        call_ensures(Table::<K, V>::from_entries, (entries,), r),
    ensures
        forall|k: K::V| #[trigger]
            r@.contains_key(k) <==> exists|i: int|
                0 <= i < entries@.len() && (#[trigger] entries@[i]).0@ == k,
        forall|i: int|
            0 <= i < entries@.len() && (forall|j: int|
                i < j < entries@.len() ==> #[trigger] entries@[j].0@ != entries@[i].0@)
                ==> r@[(#[trigger] entries@[i]).0@] == entries@[i].1,
        (forall|i: int, j: int|
            0 <= i < j < entries@.len() ==> (#[trigger] entries@[i]).0@ != (#[trigger] entries@[j]).0@)
            ==> r.entries() == entries@,
{
    lemma_entries_map(entries@);
}

/// What a table hands out are its keys with their values, each key once.
pub proof fn entries_are_the_table<K: Key, V>(table: Table<K, V>, r: Vec<(K, V)>)
    requires
        call_ensures(Table::<K, V>::into_entries, (table,), r),
    ensures
        forall|i: int|
            0 <= i < r@.len() ==> table@.contains_key((#[trigger] r@[i]).0@) && table@[r@[i].0@]
                == r@[i].1,
        forall|k: K::V| #[trigger]
            table@.contains_key(k) ==> exists|i: int|
                0 <= i < r@.len() && (#[trigger] r@[i]).0@ == k,
        forall|i: int, j: int|
            0 <= i < j < r@.len() ==> (#[trigger] r@[i]).0@ != (#[trigger] r@[j]).0@,
        r@ == table.entries(),
{
    lemma_entries_map(r@);
}

/// A value is found under a key exactly if the table has the key, and it is the key's value.
pub proof fn values_are_found<K: Key, V>(table: &Table<K, V>, key: &K, r: Option<&V>, has: bool)
    requires
        call_ensures(Table::<K, V>::get, (table, key), r),
        call_ensures(Table::<K, V>::contains_key, (table, key), has),
    ensures
        has <==> r is Some,
        r is Some <==> table@.contains_key(key@),
        r is Some ==> *r->0 == table@[key@],
{
}

/// A value that was inserted is found under its key, and the values of other keys stay. A key that
/// the table had stays as it was written and where it was; a new one comes last. What was removed
/// is gone, is handed out, and the values of other keys stay.
pub proof fn other_keys_stay<K: Key, V>(
    table: &mut Table<K, V>,
    key: K,
    value: V,
    less: &mut Table<K, V>,
    gone: &K,
    r: Option<V>,
    other: K::V,
)
    requires
        call_ensures(Table::<K, V>::insert, (table, key, value), ()),
        call_ensures(Table::<K, V>::remove, (less, gone), r),
    ensures
        final(table)@.contains_key(key@),
        final(table)@[key@] == value,
        other != key@ ==> (final(table)@.contains_key(other) <==> old(table)@.contains_key(other)),
        other != key@ && old(table)@.contains_key(other) ==> final(table)@[other] == old(
            table,
        )@[other],
        forall|i: int|
            0 <= i < old(table).entries().len() ==> (#[trigger] final(table).entries()[i]).0 == old(
                table,
            ).entries()[i].0,
        (forall|i: int| 0 <= i < old(table).entries().len() ==> (#[trigger] old(table).entries()[i]).0@
            != key@) ==> final(table).entries() == old(table).entries().push((key, value)),
        !final(less)@.contains_key(gone@),
        r is Some <==> old(less)@.contains_key(gone@),
        r is Some ==> r->0 == old(less)@[gone@],
        other != gone@ ==> (final(less)@.contains_key(other) <==> old(less)@.contains_key(other)),
        other != gone@ && old(less)@.contains_key(other) ==> final(less)@[other] == old(
            less,
        )@[other],
{
    keys_stay_as_written(old(table).entries(), seq![(key, value)]);
    reveal_with_fuel(all_inserted, 2);
    let one = seq![(key, value)];
    assert(one.drop_last().len() == 0);
    assert(one.last() == (key, value));
    assert(all_inserted(old(table).entries(), one) == final(table).entries());
}

/// A new table is empty; a table has as many entries as its length says; an entry is handed out
/// as it is.
pub proof fn tables_hold_their_entries<K: Key, V>(
    empty: Table<K, V>,
    table: &Table<K, V>,
    len: usize,
    i: usize,
    entry: &(K, V),
)
    requires
        call_ensures(Table::<K, V>::new, (), empty),
        call_ensures(Table::<K, V>::len, (table,), len),
        i < table.entries().len(),
        call_ensures(Table::<K, V>::entry, (table, i), entry),
    ensures
        empty.entries().len() == 0,
        forall|k: K::V| !(#[trigger] empty@.contains_key(k)),
        len == table.entries().len(),
        *entry == table.entries()[i as int],
{
}

/// A copy of a table has the same keys and values.
pub proof fn copied_table_is_the_same(table: &Table<String, String>, r: Table<String, String>)
    requires
        call_ensures(Table::<String, String>::copied, (table,), r),
    ensures
        forall|k: Seq<char>| #[trigger] r@.contains_key(k) <==> table@.contains_key(k),
        forall|k: Seq<char>| #[trigger] r@.contains_key(k) ==> r@[k] == table@[k],
{
}

} // verus!
