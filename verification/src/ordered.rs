//! A map from names to values that remembers the order of first insertion.

use vstd::prelude::*;

verus! {

/// Some entry of `entries` is stored under `key`.
pub open spec fn has_key<V>(entries: Seq<(Seq<char>, V)>, key: Seq<char>) -> bool {
    exists|i: int| 0 <= i < entries.len() && (#[trigger] entries[i]).0 == key
}

/// An index at which `key` is stored, where there is one.
pub open spec fn position<V>(entries: Seq<(Seq<char>, V)>, key: Seq<char>) -> int {
    choose|i: int| 0 <= i < entries.len() && (#[trigger] entries[i]).0 == key
}

/// No two entries share a key.
pub open spec fn distinct_keys<V>(entries: Seq<(Seq<char>, V)>) -> bool {
    forall|i: int, j: int|
        0 <= i < j < entries.len() ==> (#[trigger] entries[i]).0 != (#[trigger] entries[j]).0
}

/// The value stored under `key`.
pub open spec fn lookup<V>(entries: Seq<(Seq<char>, V)>, key: Seq<char>) -> Option<V> {
    if has_key(entries, key) {
        Some(entries[position(entries, key)].1)
    } else {
        None
    }
}

/// `entries` after storing `value` under `key`: an existing entry keeps its
/// place and takes the new value, a new key goes to the end.
pub open spec fn put<V>(entries: Seq<(Seq<char>, V)>, key: Seq<char>, value: V) -> Seq<
    (Seq<char>, V),
> {
    if has_key(entries, key) {
        entries.update(position(entries, key), (key, value))
    } else {
        entries.push((key, value))
    }
}

/// `entries` after storing each pair of `more`, first to last.
pub open spec fn put_all<V>(entries: Seq<(Seq<char>, V)>, more: Seq<(Seq<char>, V)>) -> Seq<
    (Seq<char>, V),
>
    decreases more.len(),
{
    if more.len() == 0 {
        entries
    } else {
        put(put_all(entries, more.drop_last()), more.last().0, more.last().1)
    }
}

/// With distinct keys, the place of a key is the only index that holds it.
pub proof fn lemma_position_unique<V>(entries: Seq<(Seq<char>, V)>, i: int)
    requires
        distinct_keys(entries),
        0 <= i < entries.len(),
    ensures
        has_key(entries, entries[i].0),
        position(entries, entries[i].0) == i,
        lookup(entries, entries[i].0) == Some(entries[i].1),
{
    let p = position(entries, entries[i].0);
    assert(0 <= p < entries.len() && entries[p].0 == entries[i].0);
    if p < i {
        assert(entries[p].0 != entries[i].0);
    } else if i < p {
        assert(entries[i].0 != entries[p].0);
    }
}

/// Storing a pair keeps the keys distinct, keeps every other entry, and makes
/// the stored value the one that `lookup` finds.
pub proof fn lemma_put<V>(entries: Seq<(Seq<char>, V)>, key: Seq<char>, value: V)
    requires
        distinct_keys(entries),
    ensures
        distinct_keys(put(entries, key, value)),
        lookup(put(entries, key, value), key) == Some(value),
        forall|other: Seq<char>|
            other != key ==> lookup(put(entries, key, value), other) == lookup(entries, other),
        forall|other: Seq<char>|
            has_key(put(entries, key, value), other) <==> other == key || has_key(entries, other),
        put(entries, key, value).len() == entries.len() + if has_key(entries, key) {
            0int
        } else {
            1int
        },
{
    let after = put(entries, key, value);
    if has_key(entries, key) {
        let p = position(entries, key);
        assert(after[p] == (key, value));
        assert forall|i: int, j: int| 0 <= i < j < after.len() implies (#[trigger] after[i]).0 != (
        #[trigger] after[j]).0 by {
            assert(after[i].0 == entries[i].0);
            assert(after[j].0 == entries[j].0);
        }
        lemma_position_unique(after, p);
        assert forall|other: Seq<char>| has_key(after, other) <==> other == key || has_key(
            entries,
            other,
        ) by {
            if has_key(after, other) {
                let i = position(after, other);
                assert(after[i].0 == entries[i].0);
            }
            if has_key(entries, other) {
                let i = position(entries, other);
                assert(after[i].0 == entries[i].0);
            }
        }
        assert forall|other: Seq<char>| other != key implies lookup(after, other) == lookup(
            entries,
            other,
        ) by {
            if has_key(entries, other) {
                let i = position(entries, other);
                assert(after[i] == entries[i]);
                lemma_position_unique(after, i);
            }
        }
    } else {
        let n = entries.len() as int;
        assert(after[n] == (key, value));
        assert forall|i: int, j: int| 0 <= i < j < after.len() implies (#[trigger] after[i]).0 != (
        #[trigger] after[j]).0 by {
            assert(after[i] == entries[i]);
            if j < n {
                assert(after[j] == entries[j]);
            }
        }
        lemma_position_unique(after, n);
        assert forall|other: Seq<char>| has_key(after, other) <==> other == key || has_key(
            entries,
            other,
        ) by {
            if has_key(after, other) {
                let i = position(after, other);
                if i < n {
                    assert(after[i] == entries[i]);
                }
            }
            if has_key(entries, other) {
                let i = position(entries, other);
                assert(after[i] == entries[i]);
            }
        }
        assert forall|other: Seq<char>| other != key implies lookup(after, other) == lookup(
            entries,
            other,
        ) by {
            if has_key(entries, other) {
                let i = position(entries, other);
                assert(after[i] == entries[i]);
                lemma_position_unique(after, i);
            }
        }
    }
}

/// Storing a list of pairs keeps the keys distinct and the earlier names in
/// their places, and holds exactly the names of both. A name that the list
/// lacks keeps its value; a name of the list takes the value that the list
/// gives it last.
pub proof fn lemma_put_all<V>(entries: Seq<(Seq<char>, V)>, more: Seq<(Seq<char>, V)>)
    requires
        distinct_keys(entries),
    ensures
        distinct_keys(put_all(entries, more)),
        entries.len() <= put_all(entries, more).len(),
        forall|i: int|
            0 <= i < entries.len() ==> (#[trigger] put_all(entries, more)[i]).0 == entries[i].0,
        forall|key: Seq<char>|
            has_key(put_all(entries, more), key) <==> has_key(entries, key) || has_key(more, key),
        forall|key: Seq<char>|
            !has_key(more, key) ==> lookup(put_all(entries, more), key) == lookup(entries, key),
        forall|i: int|
            0 <= i < more.len() && (forall|j: int|
                i < j < more.len() ==> (#[trigger] more[j]).0 != more[i].0) ==> lookup(
                put_all(entries, more),
                (#[trigger] more[i]).0,
            ) == Some(more[i].1),
    decreases more.len(),
{
    if more.len() > 0 {
        let front = more.drop_last();
        let last = more.last();
        let before = put_all(entries, front);
        let after = put_all(entries, more);
        lemma_put_all(entries, front);
        lemma_put(before, last.0, last.1);
        assert(more[more.len() - 1] == last);
        assert forall|i: int| 0 <= i < front.len() implies #[trigger] front[i] == more[i] by {}
        assert forall|i: int| 0 <= i < entries.len() implies (#[trigger] after[i]).0
            == entries[i].0 by {
            assert(before[i].0 == entries[i].0);
            if has_key(before, last.0) {
                let at = position(before, last.0);
                if at == i {
                    assert(after[i].0 == last.0);
                }
            }
        }
        assert forall|key: Seq<char>| has_key(more, key) <==> has_key(front, key) || key
            == last.0 by {
            if has_key(more, key) {
                let i = position(more, key);
                if i < more.len() - 1 {
                    assert(front[i].0 == key);
                }
            }
            if has_key(front, key) {
                let i = position(front, key);
                assert(more[i].0 == key);
            }
        }
        assert forall|i: int|
            0 <= i < more.len() && (forall|j: int|
                i < j < more.len() ==> (#[trigger] more[j]).0 != more[i].0) implies lookup(
            after,
            (#[trigger] more[i]).0,
        ) == Some(more[i].1) by {
            if i < more.len() - 1 {
                assert(more[more.len() - 1].0 != more[i].0);
                assert forall|j: int| i < j < front.len() implies (#[trigger] front[j]).0
                    != front[i].0 by {
                    assert(more[j].0 != more[i].0);
                }
                assert(lookup(before, front[i].0) == Some(front[i].1));
            }
        }
    }
}

/// An insertion-ordered map from names to values.
///
/// Its view is the sequence of `(name, value)` pairs in the order in which the
/// names were first inserted; no name occurs twice.
#[derive(Debug, PartialEq, Eq)]
pub struct OrderedMap<V: View> {
    entries: Vec<(String, V)>,
}

impl<V: View> View for OrderedMap<V> {
    type V = Seq<(Seq<char>, V::V)>;

    closed spec fn view(&self) -> Seq<(Seq<char>, V::V)> {
        Seq::new(self.entries.len() as nat, |i: int| (self.entries[i].0@, self.entries[i].1@))
    }
}

impl<V: View> OrderedMap<V> {
    #[verifier::type_invariant]
    spec fn keys_are_distinct(&self) -> bool {
        distinct_keys(self@)
    }

    /// An empty map.
    pub fn new() -> (map: Self)
        ensures
            map@ == Seq::<(Seq<char>, V::V)>::empty(),
    {
        let map = OrderedMap { entries: Vec::new() };
        assert(map@ =~= Seq::<(Seq<char>, V::V)>::empty());
        map
    }

    /// The number of entries.
    pub fn len(&self) -> (n: usize)
        ensures
            n == self@.len(),
            distinct_keys(self@),
    {
        proof {
            use_type_invariant(self);
        }
        self.entries.len()
    }

    /// The name of the entry at `index`, counted in insertion order.
    pub fn key_at(&self, index: usize) -> (key: &String)
        requires
            index < self@.len(),
        ensures
            key@ == self@[index as int].0,
    {
        &self.entries[index].0
    }

    /// The value of the entry at `index`, counted in insertion order.
    pub fn value_at(&self, index: usize) -> (value: &V)
        requires
            index < self@.len(),
        ensures
            value@ == self@[index as int].1,
    {
        &self.entries[index].1
    }

    /// The index of the entry stored under `key`.
    pub fn index_of(&self, key: &String) -> (found: Option<usize>)
        ensures
            distinct_keys(self@),
            match found {
                Some(i) => i < self@.len() && self@[i as int].0 == key@ && has_key(self@, key@)
                    && position(self@, key@) == i,
                None => !has_key(self@, key@),
            },
    {
        proof {
            use_type_invariant(self);
        }
        let mut i: usize = 0;
        while i < self.entries.len()
            invariant
                i <= self.entries.len(),
                self@.len() == self.entries.len(),
                distinct_keys(self@),
                forall|k: int| 0 <= k < i ==> (#[trigger] self@[k]).0 != key@,
            decreases self.entries.len() - i,
        {
            if self.entries[i].0 == *key {
                proof {
                    lemma_position_unique(self@, i as int);
                }
                return Some(i);
            }
            i += 1;
        }
        None
    }

    /// Whether an entry is stored under `key`.
    pub fn contains_key(&self, key: &String) -> (found: bool)
        ensures
            found == has_key(self@, key@),
    {
        self.index_of(key).is_some()
    }

    /// The value stored under `key`.
    pub fn get(&self, key: &String) -> (found: Option<&V>)
        ensures
            match found {
                Some(value) => lookup(self@, key@) == Some(value@),
                None => lookup(self@, key@) is None,
            },
    {
        match self.index_of(key) {
            Some(i) => Some(&self.entries[i].1),
            None => None,
        }
    }

    /// Stores `value` under `key`. A name that is already present keeps its
    /// place and takes the new value; a new name goes to the end.
    pub fn insert(&mut self, key: String, value: V)
        ensures
            final(self)@ == put(old(self)@, key@, value@),
            distinct_keys(final(self)@),
    {
        let found = self.index_of(&key);
        proof {
            lemma_put(self@, key@, value@);
        }
        let mut entries: Vec<(String, V)> = Vec::new();
        core::mem::swap(&mut self.entries, &mut entries);
        match found {
            Some(i) => {
                entries.set(i, (key, value));
            },
            None => {
                entries.push((key, value));
            },
        }
        let ghost after = Seq::new(entries.len() as nat, |i: int| (entries[i].0@, entries[i].1@));
        assert(after =~= put(old(self)@, key@, value@));
        core::mem::swap(&mut self.entries, &mut entries);
        assert(self@ =~= after);
    }

    /// Puts `value` in the place of the value of the entry at `index`, and
    /// hands the earlier value out.
    pub fn replace_at(&mut self, index: usize, value: V) -> (earlier: V)
        requires
            index < old(self)@.len(),
        ensures
            earlier@ == old(self)@[index as int].1,
            final(self)@ == old(self)@.update(index as int, (old(self)@[index as int].0, value@)),
            distinct_keys(final(self)@),
    {
        proof {
            use_type_invariant(&*self);
        }
        let ghost wanted = old(self)@.update(index as int, (old(self)@[index as int].0, value@));
        let mut value = value;
        let mut entries: Vec<(String, V)> = Vec::new();
        core::mem::swap(&mut self.entries, &mut entries);
        core::mem::swap(&mut entries[index].1, &mut value);
        let ghost after = Seq::new(entries.len() as nat, |i: int| (entries[i].0@, entries[i].1@));
        assert(after =~= wanted);
        assert(distinct_keys(after)) by {
            assert forall|i: int, j: int| 0 <= i < j < after.len() implies (#[trigger] after[i]).0
                != (#[trigger] after[j]).0 by {
                assert(after[i].0 == old(self)@[i].0);
                assert(after[j].0 == old(self)@[j].0);
            }
        }
        core::mem::swap(&mut self.entries, &mut entries);
        assert(self@ =~= after);
        value
    }
}

} // verus!
