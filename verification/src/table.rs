//! A map keyed by text.

use crate::text;
use vstd::prelude::*;

verus! {

/// Every key occurs once.
pub open spec fn keys_distinct<V>(entries: Seq<(String, V)>) -> bool {
    forall|i: int, j: int|
        0 <= i < entries.len() && 0 <= j < entries.len() && #[trigger] entries[i].0@
            == #[trigger] entries[j].0@ ==> i == j
}

/// The map that a list of entries writes, later entries over earlier ones.
pub open spec fn entries_map<V>(entries: Seq<(String, V)>) -> Map<Seq<char>, V>
    decreases entries.len(),
{
    if entries.len() == 0 {
        Map::empty()
    } else {
        entries_map(entries.drop_last()).insert(entries.last().0@, entries.last().1)
    }
}

/// Some entry has the key.
pub open spec fn has_key<V>(entries: Seq<(String, V)>, key: Seq<char>) -> bool {
    exists|i: int| 0 <= i < entries.len() && #[trigger] entries[i].0@ == key
}

proof fn lemma_entries<V>(entries: Seq<(String, V)>)
    ensures
        forall|key: Seq<char>|
            #[trigger] entries_map(entries).dom().contains(key) <==> has_key(entries, key),
        keys_distinct(entries) ==> forall|i: int|
            0 <= i < entries.len() ==> entries_map(entries)[#[trigger] entries[i].0@]
                == entries[i].1,
    decreases entries.len(),
{
    if entries.len() > 0 {
        let rest = entries.drop_last();
        let n = entries.len() - 1;
        lemma_entries(rest);
        assert forall|key: Seq<char>| #[trigger]
            entries_map(entries).dom().contains(key) <==> has_key(entries, key) by {
            if entries_map(entries).dom().contains(key) {
                if key == entries.last().0@ {
                    assert(entries[n].0@ == key);
                } else {
                    assert(entries_map(rest).dom().contains(key));
                    let i = choose|i: int| 0 <= i < rest.len() && #[trigger] rest[i].0@ == key;
                    assert(entries[i].0@ == key);
                }
            }
            if has_key(entries, key) {
                let i = choose|i: int| 0 <= i < entries.len() && #[trigger] entries[i].0@ == key;
                if i < n {
                    assert(rest[i].0@ == key);
                    assert(entries_map(rest).dom().contains(key));
                }
            }
        }
        if keys_distinct(entries) {
            assert(keys_distinct(rest)) by {
                assert forall|i: int, j: int|
                    0 <= i < rest.len() && 0 <= j < rest.len() && #[trigger] rest[i].0@
                        == #[trigger] rest[j].0@ implies i == j by {
                    assert(entries[i].0@ == entries[j].0@);
                }
            }
            assert forall|i: int| 0 <= i < entries.len() implies entries_map(
                entries,
            )[#[trigger] entries[i].0@] == entries[i].1 by {
                if i < n {
                    assert(rest[i].0@ == entries[i].0@);
                    assert(entries[i].0@ != entries[n].0@);
                }
            }
        }
    }
}

/// A map from texts to values.
#[derive(Debug)]
pub struct Table<V> {
    entries: Vec<(String, V)>,
}

impl<V> View for Table<V> {
    type V = Map<Seq<char>, V>;

    closed spec fn view(&self) -> Map<Seq<char>, V> {
        entries_map(self.entries@)
    }
}

impl<V> Table<V> {
    #[verifier::type_invariant]
    spec fn well_formed(self) -> bool {
        keys_distinct(self.entries@)
    }

    /// The empty map.
    pub fn new() -> (r: Self)
        ensures
            r@ == Map::<Seq<char>, V>::empty(),
    {
        Table { entries: Vec::new() }
    }

    fn index_of(&self, key: &str) -> (r: Option<usize>)
        ensures
            match r {
                Some(i) => i < self.entries.len() && self.entries[i as int].0@ == key@
                    && self@.dom().contains(key@) && self@[key@] == self.entries[i as int].1,
                None => !self@.dom().contains(key@),
            },
    {
        proof {
            use_type_invariant(self);
            lemma_entries(self.entries@);
        }
        let mut i: usize = 0;
        while i < self.entries.len()
            invariant
                i <= self.entries.len(),
                forall|j: int| 0 <= j < i ==> #[trigger] self.entries[j].0@ != key@,
                keys_distinct(self.entries@),
                forall|i: int|
                    0 <= i < self.entries@.len() ==> self@[#[trigger] self.entries@[i].0@]
                        == self.entries@[i].1,
                forall|key: Seq<char>| #[trigger]
                    self@.dom().contains(key) <==> has_key(self.entries@, key),
            decreases self.entries.len() - i,
        {
            if text::same(self.entries[i].0.as_str(), key) {
                assert(has_key(self.entries@, key@));
                return Some(i);
            }
            i += 1;
        }
        None
    }

    /// The value of a key.
    pub fn get(&self, key: &str) -> (r: Option<&V>)
        ensures
            match r {
                Some(value) => self@.dom().contains(key@) && self@[key@] == *value,
                None => !self@.dom().contains(key@),
            },
    {
        match self.index_of(key) {
            Some(i) => Some(&self.entries[i].1),
            None => None,
        }
    }

    /// Takes the value of a key out of the map.
    pub fn remove(&mut self, key: &str) -> (r: Option<V>)
        ensures
            final(self)@ == old(self)@.remove(key@),
            match r {
                Some(value) => old(self)@.dom().contains(key@) && old(self)@[key@] == value,
                None => !old(self)@.dom().contains(key@),
            },
    {
        proof {
            use_type_invariant(&*self);
        }
        let at = self.index_of(key);
        match at {
            Some(i) => {
                let ghost before = self.entries@;
                let mut entries: Vec<(String, V)> = Vec::new();
                std::mem::swap(&mut entries, &mut self.entries);
                let (_, value) = entries.remove(i);
                proof {
                    let after = entries@;
                    lemma_entries(before);
                    assert forall|a: int, b: int|
                        0 <= a < after.len() && 0 <= b < after.len() && #[trigger] after[a].0@
                            == #[trigger] after[b].0@ implies a == b by {
                        let x = if a < i {
                            a
                        } else {
                            a + 1
                        };
                        let y = if b < i {
                            b
                        } else {
                            b + 1
                        };
                        assert(before[x].0@ == before[y].0@);
                    }
                    lemma_entries(after);
                    let target = entries_map(before).remove(key@);
                    assert forall|k: Seq<char>| #[trigger]
                        entries_map(after).dom().contains(k) <==> target.dom().contains(k) by {
                        if has_key(after, k) {
                            let a = choose|a: int| 0 <= a < after.len() && #[trigger] after[a].0@ == k;
                            let x = if a < i {
                                a
                            } else {
                                a + 1
                            };
                            assert(before[x].0@ == k);
                            assert(before[i as int].0@ == key@);
                            assert(has_key(before, k));
                        }
                        if target.dom().contains(k) {
                            assert(has_key(before, k));
                            let x = choose|x: int|
                                0 <= x < before.len() && #[trigger] before[x].0@ == k;
                            let a = if x < i {
                                x
                            } else {
                                x - 1
                            };
                            assert(after[a].0@ == k);
                        }
                    }
                    assert forall|k: Seq<char>| #[trigger]
                        target.dom().contains(k) implies entries_map(after)[k] == target[k] by {
                        assert(entries_map(after).dom().contains(k));
                        let a = choose|a: int| 0 <= a < after.len() && #[trigger] after[a].0@ == k;
                        let x = if a < i {
                            a
                        } else {
                            a + 1
                        };
                        assert(before[x].0@ == k);
                    }
                    assert(entries_map(after) =~= target);
                }
                self.entries = entries;
                Some(value)
            },
            None => {
                assert(self@.remove(key@) =~= self@);
                None
            },
        }
    }

    /// Sets the value of a key.
    pub fn insert(&mut self, key: String, value: V)
        ensures
            final(self)@ == old(self)@.insert(key@, value),
    {
        let ghost start = self@;
        let _ = self.remove(key.as_str());
        proof {
            use_type_invariant(&*self);
            lemma_entries(self.entries@);
            assert(!self@.dom().contains(key@));
            assert(!has_key(self.entries@, key@));
        }
        let mut entries: Vec<(String, V)> = Vec::new();
        std::mem::swap(&mut entries, &mut self.entries);
        let ghost before = entries@;
        entries.push((key, value));
        proof {
            assert(entries@.drop_last() =~= before);
            assert forall|i: int, j: int|
                0 <= i < entries@.len() && 0 <= j < entries@.len() && #[trigger] entries@[i].0@
                    == #[trigger] entries@[j].0@ implies i == j by {
                let n = before.len() as int;
                if i < n && j < n {
                    assert(before[i].0@ == before[j].0@);
                } else if i < n {
                    assert(before[i].0@ == key@);
                    assert(has_key(before, key@));
                } else if j < n {
                    assert(before[j].0@ == key@);
                    assert(has_key(before, key@));
                }
            }
            assert(start.remove(key@).insert(key@, value) =~= start.insert(key@, value));
        }
        self.entries = entries;
    }
}

impl<V> Table<V> {
    /// Sets every key of another map to its value there.
    pub fn extend(&mut self, other: Table<V>)
        ensures
            final(self)@ == old(self)@.union_prefer_right(other@),
    {
        proof {
            use_type_invariant(&other);
            lemma_entries(other.entries@);
        }
        let ghost start = self@;
        let ghost all = other.entries@;
        let mut left = other.entries;
        assert(all.take(all.len() as int) =~= all);
        while left.len() > 0
            invariant
                keys_distinct(all),
                left.len() <= all.len(),
                left@ == all.take(left.len() as int),
                forall|i: int|
                    left.len() <= i < all.len() ==> self@.dom().contains(#[trigger] all[i].0@)
                        && self@[all[i].0@] == all[i].1,
                forall|key: Seq<char>|
                    #![trigger self@.dom().contains(key)]
                    #![trigger self@[key]]
                    !has_key(all.skip(left.len() as int), key) ==> self@.dom().contains(key)
                        == start.dom().contains(key) && self@[key] == start[key],
            decreases left.len(),
        {
            let ghost n = left@.len() as int;
            let ghost before = self@;
            if let Some((key, value)) = left.pop() {
                assert(all.take(n).drop_last() =~= all.take(n - 1));
                assert(all[n - 1] == (key, value));
                self.insert(key, value);
                assert forall|i: int| n - 1 <= i < all.len() implies self@.dom().contains(
                    #[trigger] all[i].0@,
                ) && self@[all[i].0@] == all[i].1 by {
                    if i > n - 1 {
                        assert(all[i].0@ != all[n - 1].0@);
                    }
                }
                assert forall|k: Seq<char>|
                    #![trigger self@.dom().contains(k)]
                    #![trigger self@[k]]
                    !has_key(all.skip(n - 1), k) implies self@.dom().contains(k)
                    == start.dom().contains(k) && self@[k] == start[k] by {
                    assert(all.skip(n - 1)[0].0@ == all[n - 1].0@);
                    assert(!has_key(all.skip(n), k)) by {
                        if has_key(all.skip(n), k) {
                            let i = choose|i: int|
                                0 <= i < all.skip(n).len() && #[trigger] all.skip(n)[i].0@ == k;
                            assert(all.skip(n - 1)[i + 1].0@ == k);
                        }
                    }
                    assert(before.dom().contains(k) == start.dom().contains(k) && before[k]
                        == start[k]);
                }
            }
        }
        proof {
            let target = start.union_prefer_right(entries_map(all));
            lemma_entries(all);
            assert(all.skip(0) =~= all);
            assert forall|key: Seq<char>| #[trigger]
                self@.dom().contains(key) == target.dom().contains(key) && (
                target.dom().contains(key) ==> self@[key] == target[key]) by {
                assert(entries_map(all).dom().contains(key) <==> has_key(all, key));
                if has_key(all, key) {
                    let i = choose|i: int| 0 <= i < all.len() && #[trigger] all[i].0@ == key;
                    assert(entries_map(all)[all[i].0@] == all[i].1);
                    assert(self@.dom().contains(all[i].0@));
                }
            }
            assert(self@ =~= target);
        }
    }
}

} // verus!
