//! A map from numbers to values.
//!
//! The entries stand in the order in which their keys were first inserted, and no key stands
//! twice. The mathematical value is a `Map` from the key.

use vstd::prelude::*;

verus! {

/// A map whose keys are numbers.
#[derive(Debug)]
pub struct IdMap<V> {
    entries: Vec<(u64, V)>,
}

/// No key stands twice in the list.
pub open spec fn distinct_keys<V>(list: Seq<(u64, V)>) -> bool {
    forall|i: int, j: int|
        #![trigger list[i], list[j]]
        0 <= i < j < list.len() ==> list[i].0 != list[j].0
}

/// Whether a key stands in the list.
pub open spec fn holds_key<V>(list: Seq<(u64, V)>, key: u64) -> bool {
    exists|i: int| 0 <= i < list.len() && (#[trigger] list[i]).0 == key
}

/// The list after a value was put under a key: a key that stands in it keeps its place, any other
/// goes to the end.
pub open spec fn placed<V>(list: Seq<(u64, V)>, key: u64, value: V) -> Seq<(u64, V)> {
    if holds_key(list, key) {
        list.map_values(
            |e: (u64, V)|
                if e.0 == key {
                    (key, value)
                } else {
                    e
                },
        )
    } else {
        list.push((key, value))
    }
}

/// The list without a key; the other entries keep their order.
pub open spec fn without_key<V>(list: Seq<(u64, V)>, key: u64) -> Seq<(u64, V)>
    decreases list.len(),
{
    if list.len() == 0 {
        Seq::empty()
    } else if list.last().0 == key {
        without_key(list.drop_last(), key)
    } else {
        without_key(list.drop_last(), key).push(list.last())
    }
}

proof fn lemma_without_absent_key<V>(list: Seq<(u64, V)>, key: u64)
    requires
        forall|i: int| 0 <= i < list.len() ==> (#[trigger] list[i]).0 != key,
    ensures
        without_key(list, key) == list,
    decreases list.len(),
{
    if list.len() > 0 {
        let init = list.drop_last();
        assert forall|i: int| 0 <= i < init.len() implies (#[trigger] init[i]).0 != key by {
            assert(init[i] == list[i]);
        }
        lemma_without_absent_key(init, key);
        assert(list[list.len() - 1].0 != key);
        assert(init.push(list.last()) =~= list);
    } else {
        assert(list =~= Seq::<(u64, V)>::empty());
    }
}

proof fn lemma_without_key<V>(list: Seq<(u64, V)>, i: int)
    requires
        distinct_keys(list),
        0 <= i < list.len(),
    ensures
        without_key(list, list[i].0) == list.remove(i),
    decreases list.len(),
{
    let init = list.drop_last();
    let key = list[i].0;
    assert forall|a: int, b: int|
        #![trigger init[a], init[b]]
        0 <= a < b < init.len() implies init[a].0 != init[b].0 by {
        assert(list[a].0 != list[b].0);
    }
    if i < init.len() {
        assert(list[i].0 != list[list.len() - 1].0);
        lemma_without_key(init, i);
        assert(init.remove(i).push(list.last()) =~= list.remove(i));
    } else {
        assert forall|j: int| 0 <= j < init.len() implies (#[trigger] init[j]).0 != key by {
            assert(list[j].0 != list[i].0);
        }
        lemma_without_absent_key(init, key);
        assert(list.remove(i) =~= init);
    }
}

/// Taking a key out twice is taking it out once.
pub proof fn lemma_without_key_twice<V>(list: Seq<(u64, V)>, key: u64)
    ensures
        without_key(without_key(list, key), key) == without_key(list, key),
{
    lemma_keys_without(list, key);
    lemma_without_absent_key(without_key(list, key), key);
}

proof fn lemma_keys_without<V>(list: Seq<(u64, V)>, key: u64)
    ensures
        forall|i: int|
            0 <= i < without_key(list, key).len() ==> (#[trigger] without_key(list, key)[i]).0
                != key,
    decreases list.len(),
{
    if list.len() > 0 {
        lemma_keys_without(list.drop_last(), key);
        let rest = without_key(list.drop_last(), key);
        let all = without_key(list, key);
        assert forall|i: int| 0 <= i < all.len() implies (#[trigger] all[i]).0 != key by {
            if i < rest.len() {
                assert(all[i] == rest[i]);
            }
        }
    }
}

/// The map that a list of entries stands for.
pub open spec fn as_map<V>(list: Seq<(u64, V)>) -> Map<u64, V>
    decreases list.len(),
{
    if list.len() == 0 {
        Map::empty()
    } else {
        as_map(list.drop_last()).insert(list.last().0, list.last().1)
    }
}

/// What the map of a list without repeated keys holds.
pub proof fn lemma_as_map<V>(list: Seq<(u64, V)>)
    requires
        distinct_keys(list),
    ensures
        as_map(list).dom().finite(),
        as_map(list).dom().len() == list.len(),
        forall|k: u64| #[trigger]
            as_map(list).contains_key(k) <==> exists|i: int|
                0 <= i < list.len() && (#[trigger] list[i]).0 == k,
        forall|i: int|
            0 <= i < list.len() ==> as_map(list).contains_key((#[trigger] list[i]).0)
                && as_map(list)[list[i].0] == list[i].1,
    decreases list.len(),
{
    if list.len() > 0 {
        let rest = list.drop_last();
        assert forall|i: int, j: int|
            #![trigger rest[i], rest[j]]
            0 <= i < j < rest.len() implies rest[i].0 != rest[j].0 by {
            assert(list[i].0 != list[j].0);
        }
        lemma_as_map(rest);
        assert forall|k: u64| #[trigger]
            as_map(list).contains_key(k) implies exists|i: int|
            0 <= i < list.len() && (#[trigger] list[i]).0 == k by {
            if k == list.last().0 {
                assert(list[list.len() - 1].0 == k);
            } else {
                assert(as_map(rest).contains_key(k));
                let i = choose|i: int| 0 <= i < rest.len() && (#[trigger] rest[i]).0 == k;
                assert(list[i].0 == k);
            }
        }
        assert forall|i: int| 0 <= i < list.len() implies as_map(list).contains_key(
            (#[trigger] list[i]).0,
        ) && as_map(list)[list[i].0] == list[i].1 by {
            if i < list.len() - 1 {
                assert(rest[i] == list[i]);
                assert(list[i].0 != list[list.len() - 1].0);
            }
        }
        assert(!as_map(rest).contains_key(list.last().0)) by {
            if as_map(rest).contains_key(list.last().0) {
                let i = choose|i: int|
                    0 <= i < rest.len() && (#[trigger] rest[i]).0 == list.last().0;
                assert(list[i].0 != list[list.len() - 1].0);
            }
        }
    }
}

/// Two lists without repeated keys that hold the same entries stand for the same map.
pub proof fn lemma_as_map_ext<V>(list: Seq<(u64, V)>, map: Map<u64, V>)
    requires
        distinct_keys(list),
        forall|i: int|
            0 <= i < list.len() ==> map.contains_key((#[trigger] list[i]).0) && map[list[i].0]
                == list[i].1,
        forall|k: u64| #[trigger]
            map.contains_key(k) ==> exists|i: int|
                0 <= i < list.len() && (#[trigger] list[i]).0 == k,
    ensures
        as_map(list) == map,
{
    lemma_as_map(list);
    assert forall|k: u64| #[trigger] as_map(list).contains_key(k) implies map.contains_key(k)
        && as_map(list)[k] == map[k] by {
        let i = choose|i: int| 0 <= i < list.len() && (#[trigger] list[i]).0 == k;
        assert(map.contains_key(list[i].0));
    }
    assert forall|k: u64| #[trigger] map.contains_key(k) implies as_map(list).contains_key(
        k,
    ) by {
        let i = choose|i: int| 0 <= i < list.len() && (#[trigger] list[i]).0 == k;
        assert(as_map(list).contains_key(list[i].0));
    }
    assert(as_map(list) =~= map);
}

/// Replacing the value of one entry changes the map at that entry's key alone.
proof fn lemma_update<V>(before: Seq<(u64, V)>, i: int, value: V)
    requires
        distinct_keys(before),
        0 <= i < before.len(),
    ensures
        distinct_keys(before.update(i, (before[i].0, value))),
        as_map(before.update(i, (before[i].0, value))) == as_map(before).insert(
            before[i].0,
            value,
        ),
{
    let after = before.update(i, (before[i].0, value));
    lemma_as_map(before);
    assert forall|a: int, b: int|
        #![trigger after[a], after[b]]
        0 <= a < b < after.len() implies after[a].0 != after[b].0 by {
        assert(before[a].0 != before[b].0);
    }
    let map = as_map(before).insert(before[i].0, value);
    assert forall|k: u64| #[trigger] map.contains_key(k) implies exists|j: int|
        0 <= j < after.len() && (#[trigger] after[j]).0 == k by {
        if k == before[i].0 {
            assert(after[i].0 == k);
        } else {
            let j = choose|j: int| 0 <= j < before.len() && (#[trigger] before[j]).0 == k;
            assert(after[j].0 == k);
        }
    }
    assert forall|j: int| 0 <= j < after.len() implies map.contains_key(
        (#[trigger] after[j]).0,
    ) && map[after[j].0] == after[j].1 by {
        assert(before[j].0 == after[j].0);
        if j != i {
            assert(before[j].0 != before[i].0);
        }
    }
    lemma_as_map_ext(after, map);
}

impl<V> View for IdMap<V> {
    type V = Map<u64, V>;

    open spec fn view(&self) -> Map<u64, V> {
        as_map(self.listing())
    }
}

impl<V> IdMap<V> {
    /// The entries in the order in which their keys came.
    pub closed spec fn listing(&self) -> Seq<(u64, V)> {
        self.entries@
    }

    /// No key stands twice.
    pub open spec fn wf(&self) -> bool {
        distinct_keys(self.listing())
    }

    /// A map without entries.
    pub fn new() -> (r: Self)
        ensures
            r.wf(),
            r.listing() == Seq::<(u64, V)>::empty(),
            r@ == Map::<u64, V>::empty(),
    {
        let r = IdMap { entries: Vec::new() };
        assert(r.listing() =~= Seq::<(u64, V)>::empty());
        r
    }

    /// The number of entries.
    pub fn len(&self) -> (r: usize)
        requires
            self.wf(),
        ensures
            r == self.listing().len(),
            r == self@.dom().len(),
    {
        proof {
            lemma_as_map(self.listing());
        }
        self.entries.len()
    }

    /// The place of a key.
    pub fn position(&self, key: u64) -> (r: Option<usize>)
        requires
            self.wf(),
        ensures
            match r {
                Some(i) => i < self.listing().len() && self.listing()[i as int].0 == key
                    && self@.contains_key(key) && self@[key] == self.listing()[i as int].1,
                None => !self@.contains_key(key),
            },
    {
        proof {
            lemma_as_map(self.listing());
        }
        let mut i: usize = 0;
        while i < self.entries.len()
            invariant
                self.wf(),
                i <= self.entries@.len(),
                self.listing().len() == self.entries@.len(),
                forall|j: int|
                    0 <= j < self.entries@.len() ==> (#[trigger] self.listing()[j]).0
                        == self.entries@[j].0@ && self.listing()[j].1 == self.entries@[j].1,
                forall|j: int| 0 <= j < i ==> (#[trigger] self.listing()[j]).0 != key,
                forall|j: int|
                    0 <= j < self.listing().len() ==> self@.contains_key(
                        (#[trigger] self.listing()[j]).0,
                    ) && self@[self.listing()[j].0] == self.listing()[j].1,
            decreases self.entries@.len() - i,
        {
            if self.entries[i].0 == key {
                assert(self.listing()[i as int].0 == key);
                return Some(i);
            }
            assert(self.listing()[i as int].0 != key);
            i = i + 1;
        }
        None
    }

    /// Whether there is an entry under the key.
    pub fn contains_key(&self, key: u64) -> (r: bool)
        requires
            self.wf(),
        ensures
            r == self@.contains_key(key),
    {
        self.position(key).is_some()
    }

    /// The key at a place.
    pub fn key_at(&self, i: usize) -> (r: u64)
        requires
            i < self.listing().len(),
        ensures
            r == self.listing()[i as int].0,
    {
        self.entries[i].0
    }

    /// The value at a place.
    pub fn value_at(&self, i: usize) -> (r: &V)
        requires
            i < self.listing().len(),
        ensures
            *r == self.listing()[i as int].1,
    {
        &self.entries[i].1
    }

    /// The value under a key.
    pub fn get(&self, key: u64) -> (r: Option<&V>)
        requires
            self.wf(),
        ensures
            match r {
                Some(v) => self@.contains_key(key) && *v == self@[key],
                None => !self@.contains_key(key),
            },
    {
        match self.position(key) {
            Some(i) => Some(&self.entries[i].1),
            None => None,
        }
    }

    /// Replaces the value at a place.
    pub fn replace_at(&mut self, i: usize, value: V) -> (r: V)
        requires
            old(self).wf(),
            i < old(self).listing().len(),
        ensures
            final(self).wf(),
            r == old(self).listing()[i as int].1,
            final(self).listing() == old(self).listing().update(
                i as int,
                (old(self).listing()[i as int].0, value),
            ),
            final(self)@ == old(self)@.insert(old(self).listing()[i as int].0, value),
    {
        let ghost before = self.listing();
        let mut new = value;
        std::mem::swap(&mut new, &mut self.entries[i].1);
        proof {
            lemma_update(before, i as int, value);
            assert(self.listing() =~= before.update(i as int, (before[i as int].0, value)));
        }
        new
    }

    /// Puts a value under a key and hands back the value that stood there.
    pub fn insert(&mut self, key: u64, value: V) -> (r: Option<V>)
        requires
            old(self).wf(),
        ensures
            final(self).wf(),
            final(self)@ == old(self)@.insert(key, value),
            final(self).listing() == placed(old(self).listing(), key, value),
            match r {
                Some(v) => old(self)@.contains_key(key) && v == old(self)@[key],
                None => !old(self)@.contains_key(key) && final(self).listing()
                    == old(self).listing().push((key, value)),
            },
    {
        match self.position(key) {
            Some(i) => {
                let ghost before = self.listing();
                let r = self.replace_at(i, value);
                assert(self.listing() =~= placed(before, key, value)) by {
                    assert(holds_key(before, key)) by {
                        assert(before[i as int].0 == key);
                    }
                    assert forall|j: int| 0 <= j < before.len() && j != i implies before[j].0
                        != key by {
                        if j < i {
                            assert(before[j].0 != before[i as int].0);
                        } else {
                            assert(before[i as int].0 != before[j].0);
                        }
                    }
                }
                Some(r)
            },
            None => {
                let ghost before = self.listing();
                self.entries.push((key, value));
                proof {
                    let after = before.push((key, value));
                    assert(self.listing() =~= after);
                    lemma_as_map(before);
                    assert forall|a: int, b: int|
                        #![trigger after[a], after[b]]
                        0 <= a < b < after.len() implies after[a].0 != after[b].0 by {
                        assert(after[a] == before[a]);
                        if b < before.len() {
                            assert(before[a].0 != before[b].0);
                        }
                    }
                    assert(after.drop_last() =~= before);
                }
                None
            },
        }
    }

    /// Takes out the entry at a place; the others keep their order.
    pub fn remove_at(&mut self, i: usize) -> (r: (u64, V))
        requires
            old(self).wf(),
            i < old(self).listing().len(),
        ensures
            final(self).wf(),
            r == old(self).listing()[i as int],
            final(self).listing() == old(self).listing().remove(i as int),
            final(self)@ == old(self)@.remove(old(self).listing()[i as int].0),
    {
        let ghost before = self.listing();
        let r = self.entries.remove(i);
        proof {
            let after = before.remove(i as int);
            assert(self.listing() =~= after);
            lemma_as_map(before);
            assert forall|a: int, b: int|
                #![trigger after[a], after[b]]
                0 <= a < b < after.len() implies after[a].0 != after[b].0 by {
                let x = if a < i { a } else { a + 1 };
                let y = if b < i { b } else { b + 1 };
                assert(before[x].0 != before[y].0);
            }
            let map = as_map(before).remove(before[i as int].0);
            assert forall|k: u64| #[trigger] map.contains_key(k) implies exists|j: int|
                0 <= j < after.len() && (#[trigger] after[j]).0 == k by {
                let j = choose|j: int| 0 <= j < before.len() && (#[trigger] before[j]).0 == k;
                let m = if j < i { j } else { j - 1 };
                assert(after[m].0 == k);
            }
            assert forall|j: int| 0 <= j < after.len() implies map.contains_key(
                (#[trigger] after[j]).0,
            ) && map[after[j].0] == after[j].1 by {
                let x = if j < i { j } else { j + 1 };
                assert(before[x] == after[j]);
                assert(before[x].0 != before[i as int].0);
            }
            lemma_as_map_ext(after, map);
        }
        r
    }

    /// Takes out the entry under a key.
    pub fn remove(&mut self, key: u64) -> (r: Option<V>)
        requires
            old(self).wf(),
        ensures
            final(self).wf(),
            final(self)@ == old(self)@.remove(key),
            final(self).listing() == without_key(old(self).listing(), key),
            match r {
                Some(v) => old(self)@.contains_key(key) && v == old(self)@[key],
                None => !old(self)@.contains_key(key) && final(self).listing()
                    == old(self).listing(),
            },
    {
        proof {
            lemma_as_map(self.listing());
        }
        match self.position(key) {
            Some(i) => {
                proof {
                    lemma_without_key(self.listing(), i as int);
                }
                Some(self.remove_at(i).1)
            },
            None => {
                proof {
                    assert forall|j: int| 0 <= j < self.listing().len() implies (
                    #[trigger] self.listing()[j]).0 != key by {
                        assert(self@.contains_key(self.listing()[j].0));
                    }
                    lemma_without_absent_key(self.listing(), key);
                }
                assert(self@.remove(key) =~= self@);
                None
            },
        }
    }

    /// A changeable reference to the value under a key.
    pub fn get_mut(&mut self, key: u64) -> (r: Option<&mut V>)
        requires
            old(self).wf(),
        ensures
            final(self).wf(),
            match r {
                Some(v) => old(self)@.contains_key(key) && *v == old(self)@[key]
                    && final(self)@ == old(self)@.insert(key, *final(v)),
                None => !old(self)@.contains_key(key) && *final(self) == *old(self),
            },
    {
        match self.position(key) {
            Some(i) => {
                let ghost before = self.listing();
                let ghost after = *final(self);
                let r = &mut self.entries[i].1;
                proof {
                    lemma_update(before, i as int, *final(r));
                    assert(after.listing() =~= before.update(
                        i as int,
                        (before[i as int].0, *final(r)),
                    ));
                }
                Some(r)
            },
            None => None,
        }
    }

    /// Removes every entry.
    pub fn clear(&mut self)
        ensures
            final(self).wf(),
            final(self).listing() == Seq::<(u64, V)>::empty(),
            final(self)@ == Map::<u64, V>::empty(),
    {
        self.entries.clear();
        assert(self.listing() =~= Seq::<(u64, V)>::empty());
    }

    /// Takes every entry out.
    pub fn drain(&mut self) -> (r: Vec<(u64, V)>)
        ensures
            final(self).wf(),
            final(self).listing() == Seq::<(u64, V)>::empty(),
            final(self)@ == Map::<u64, V>::empty(),
            r@ == old(self).listing(),
    {
        let mut out: Vec<(u64, V)> = Vec::new();
        std::mem::swap(&mut out, &mut self.entries);
        assert(self.listing() =~= Seq::<(u64, V)>::empty());
        out
    }
}

impl<V: Copy> IdMap<V> {
    /// A copy of the map.
    pub fn copied(&self) -> (r: Self)
        ensures
            r.listing() == self.listing(),
            r@ == self@,
    {
        let mut entries: Vec<(u64, V)> = Vec::new();
        let mut i: usize = 0;
        while i < self.entries.len()
            invariant
                i <= self.entries@.len(),
                entries@ =~= self.entries@.take(i as int),
            decreases self.entries@.len() - i,
        {
            entries.push((self.entries[i].0, self.entries[i].1));
            i = i + 1;
        }
        let r = IdMap { entries };
        assert(r.listing() =~= self.listing());
        r
    }
}

} // verus!
