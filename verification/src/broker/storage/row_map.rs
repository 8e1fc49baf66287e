//! A map from the rows of clients to values.

use crate::text::same_text;
use vstd::prelude::*;

verus! {

/// A row of a client: a sequence number, or the number of an in-flight slot.
#[derive(Debug)]
pub struct RowKey {
    pub client_id: String,
    pub slot: u64,
}

/// The mathematical value of a key.
pub type Row = (Seq<char>, u64);

impl View for RowKey {
    type V = Row;

    open spec fn view(&self) -> Row {
        (self.client_id@, self.slot)
    }
}

impl RowKey {
    /// Whether two keys are the same.
    pub fn same(&self, other: &RowKey) -> (r: bool)
        ensures
            r == (self@ == other@),
    {
        self.slot == other.slot && same_text(self.client_id.as_str(), other.client_id.as_str())
    }

    /// A copy of the key.
    pub fn copy(&self) -> (r: RowKey)
        ensures
            r == *self,
    {
        RowKey { client_id: self.client_id.clone(), slot: self.slot }
    }
}

/// No key stands twice.
pub open spec fn distinct_rows<T>(list: Seq<(RowKey, T)>) -> bool {
    forall|i: int, j: int|
        #![trigger list[i], list[j]]
        0 <= i < j < list.len() ==> list[i].0@ != list[j].0@
}

/// The map that a list of rows stands for.
pub open spec fn rows_map<T>(list: Seq<(RowKey, T)>) -> Map<Row, T>
    decreases list.len(),
{
    if list.len() == 0 {
        Map::empty()
    } else {
        rows_map(list.drop_last()).insert(list.last().0@, list.last().1)
    }
}

/// What the map of a list without repeated keys holds.
pub proof fn lemma_rows_map<T>(list: Seq<(RowKey, T)>)
    requires
        distinct_rows(list),
    ensures
        rows_map(list).dom().finite(),
        rows_map(list).dom().len() == list.len(),
        forall|k: Row| #[trigger]
            rows_map(list).contains_key(k) <==> exists|i: int|
                0 <= i < list.len() && (#[trigger] list[i]).0@ == k,
        forall|i: int|
            0 <= i < list.len() ==> rows_map(list).contains_key((#[trigger] list[i]).0@)
                && rows_map(list)[list[i].0@] == list[i].1,
    decreases list.len(),
{
    if list.len() > 0 {
        let rest = list.drop_last();
        assert forall|i: int, j: int|
            #![trigger rest[i], rest[j]]
            0 <= i < j < rest.len() implies rest[i].0@ != rest[j].0@ by {
            assert(list[i].0@ != list[j].0@);
        }
        lemma_rows_map(rest);
        assert forall|k: Row| #[trigger] rows_map(list).contains_key(k) implies exists|i: int|
            0 <= i < list.len() && (#[trigger] list[i]).0@ == k by {
            if k == list.last().0@ {
                assert(list[list.len() - 1].0@ == k);
            } else {
                let i = choose|i: int| 0 <= i < rest.len() && (#[trigger] rest[i]).0@ == k;
                assert(list[i].0@ == k);
            }
        }
        assert forall|i: int| 0 <= i < list.len() implies rows_map(list).contains_key(
            (#[trigger] list[i]).0@,
        ) && rows_map(list)[list[i].0@] == list[i].1 by {
            if i < list.len() - 1 {
                assert(rest[i] == list[i]);
                assert(list[i].0@ != list[list.len() - 1].0@);
            }
        }
        assert(!rows_map(rest).contains_key(list.last().0@)) by {
            if rows_map(rest).contains_key(list.last().0@) {
                let i = choose|i: int|
                    0 <= i < rest.len() && (#[trigger] rest[i]).0@ == list.last().0@;
                assert(list[i].0@ != list[list.len() - 1].0@);
            }
        }
    }
}

/// A list without repeated keys whose entries are those of a map stands for that map.
pub proof fn lemma_rows_map_is<T>(list: Seq<(RowKey, T)>, map: Map<Row, T>)
    requires
        distinct_rows(list),
        forall|i: int|
            0 <= i < list.len() ==> map.contains_key((#[trigger] list[i]).0@) && map[list[i].0@]
                == list[i].1,
        forall|k: Row| #[trigger]
            map.contains_key(k) ==> exists|i: int|
                0 <= i < list.len() && (#[trigger] list[i]).0@ == k,
    ensures
        rows_map(list) == map,
{
    lemma_rows_map(list);
    assert forall|k: Row| #[trigger] rows_map(list).contains_key(k) implies map.contains_key(k)
        && rows_map(list)[k] == map[k] by {
        let i = choose|i: int| 0 <= i < list.len() && (#[trigger] list[i]).0@ == k;
        assert(map.contains_key(list[i].0@));
    }
    assert forall|k: Row| #[trigger] map.contains_key(k) implies rows_map(list).contains_key(k) by {
        let i = choose|i: int| 0 <= i < list.len() && (#[trigger] list[i]).0@ == k;
        assert(rows_map(list).contains_key(list[i].0@));
    }
    assert(rows_map(list) =~= map);
}

/// A map from rows to values.
#[derive(Debug)]
pub struct RowMap<T> {
    rows: Vec<(RowKey, T)>,
}

impl<T> View for RowMap<T> {
    type V = Map<Row, T>;

    closed spec fn view(&self) -> Map<Row, T> {
        rows_map(self.rows@)
    }
}

/// The part of a map that belongs to other clients.
pub open spec fn without_client<T>(map: Map<Row, T>, client_id: Seq<char>) -> Map<Row, T> {
    Map::new(|k: Row| map.contains_key(k) && k.0 != client_id, |k: Row| map[k])
}

impl<T> RowMap<T> {
    /// The entries, in order.
    pub closed spec fn listing(&self) -> Seq<(RowKey, T)> {
        self.rows@
    }

    /// No key stands twice.
    pub closed spec fn wf(&self) -> bool {
        distinct_rows(self.rows@)
    }

    /// The list holds each key once, and the map is what it stands for.
    pub proof fn lemma_listing(&self)
        requires
            self.wf(),
        ensures
            distinct_rows(self.listing()),
            self@ == rows_map(self.listing()),
    {
    }

    /// A map without entries.
    pub fn new() -> (r: Self)
        ensures
            r.wf(),
            r@ == Map::<Row, T>::empty(),
    {
        RowMap { rows: Vec::new() }
    }

    /// The number of entries.
    pub fn len(&self) -> (r: usize)
        requires
            self.wf(),
        ensures
            r == self@.dom().len(),
            r == self.listing().len(),
    {
        proof {
            lemma_rows_map(self.rows@);
        }
        self.rows.len()
    }

    fn position(&self, key: &RowKey) -> (r: Option<usize>)
        requires
            self.wf(),
        ensures
            match r {
                Some(i) => i < self.rows@.len() && self.rows@[i as int].0@ == key@
                    && self@.contains_key(key@) && self@[key@]
                    == self.rows@[i as int].1,
                None => !self@.contains_key(key@),
            },
    {
        proof {
            lemma_rows_map(self.rows@);
        }
        let mut i: usize = 0;
        while i < self.rows.len()
            invariant
                i <= self.rows@.len(),
                forall|j: int| 0 <= j < i ==> (#[trigger] self.rows@[j]).0@ != key@,
                forall|j: int|
                    0 <= j < self.rows@.len() ==> self@.contains_key(
                        (#[trigger] self.rows@[j]).0@,
                    ) && self@[self.rows@[j].0@] == self.rows@[j].1,
            decreases self.rows@.len() - i,
        {
            if self.rows[i].0.same(key) {
                assert(self.rows@[i as int].0@ == key@);
                return Some(i);
            }
            i = i + 1;
        }
        None
    }

    /// The key at a place.
    pub fn key_at(&self, i: usize) -> (r: &RowKey)
        requires
            i < self.listing().len(),
        ensures
            *r == self.listing()[i as int].0,
    {
        &self.rows[i].0
    }

    /// The value at a place.
    pub fn value_at(&self, i: usize) -> (r: &T)
        requires
            i < self.listing().len(),
        ensures
            *r == self.listing()[i as int].1,
    {
        &self.rows[i].1
    }

    /// The value under a key.
    pub fn get(&self, key: &RowKey) -> (r: Option<&T>)
        requires
            self.wf(),
        ensures
            match r {
                Some(v) => self@.contains_key(key@) && *v == self@[key@],
                None => !self@.contains_key(key@),
            },
    {
        match self.position(key) {
            Some(i) => Some(&self.rows[i].1),
            None => None,
        }
    }

    /// Puts a value under a key.
    pub fn insert(&mut self, key: RowKey, row: T)
        requires
            old(self).wf(),
        ensures
            final(self).wf(),
            final(self)@ == old(self)@.insert(key@, row),
    {
        let ghost before = self.rows@;
        let ghost map = rows_map(before).insert(key@, row);
        proof {
            lemma_rows_map(before);
        }
        match self.position(&key) {
            Some(i) => {
                self.rows.set(i, (key, row));
                proof {
                    let after = self.rows@;
                    assert forall|a: int, b: int|
                        #![trigger after[a], after[b]]
                        0 <= a < b < after.len() implies after[a].0@ != after[b].0@ by {
                        assert(before[a].0@ != before[b].0@);
                    }
                    assert forall|k: Row| #[trigger] map.contains_key(k) implies exists|j: int|
                        0 <= j < after.len() && (#[trigger] after[j]).0@ == k by {
                        if k == key@ {
                            assert(after[i as int].0@ == k);
                        } else {
                            let j = choose|j: int|
                                0 <= j < before.len() && (#[trigger] before[j]).0@ == k;
                            assert(after[j].0@ == k);
                        }
                    }
                    assert forall|j: int| 0 <= j < after.len() implies map.contains_key(
                        (#[trigger] after[j]).0@,
                    ) && map[after[j].0@] == after[j].1 by {
                        if j != i {
                            assert(before[j] == after[j]);
                            assert(before[j].0@ != before[i as int].0@);
                        }
                    }
                    lemma_rows_map_is(after, map);
                }
            },
            None => {
                self.rows.push((key, row));
                proof {
                    let after = self.rows@;
                    assert forall|a: int, b: int|
                        #![trigger after[a], after[b]]
                        0 <= a < b < after.len() implies after[a].0@ != after[b].0@ by {
                        assert(after[a] == before[a]);
                        if b < before.len() {
                            assert(before[a].0@ != before[b].0@);
                        }
                    }
                    assert(after.drop_last() =~= before);
                }
            },
        }
    }

    /// Takes the value under a key out.
    pub fn remove(&mut self, key: &RowKey) -> (r: Option<T>)
        requires
            old(self).wf(),
        ensures
            final(self).wf(),
            final(self)@ == old(self)@.remove(key@),
            match r {
                Some(v) => old(self)@.contains_key(key@) && v == old(self)@[key@],
                None => !old(self)@.contains_key(key@),
            },
    {
        match self.position(key) {
            Some(i) => {
                let ghost before = self.rows@;
                proof {
                    lemma_rows_map(before);
                }
                let entry = self.rows.remove(i);
                proof {
                    let after = self.rows@;
                    let map = rows_map(before).remove(key@);
                    assert forall|a: int, b: int|
                        #![trigger after[a], after[b]]
                        0 <= a < b < after.len() implies after[a].0@ != after[b].0@ by {
                        let x = if a < i { a } else { a + 1 };
                        let y = if b < i { b } else { b + 1 };
                        assert(before[x].0@ != before[y].0@);
                    }
                    assert forall|k: Row| #[trigger] map.contains_key(k) implies exists|j: int|
                        0 <= j < after.len() && (#[trigger] after[j]).0@ == k by {
                        let j = choose|j: int|
                            0 <= j < before.len() && (#[trigger] before[j]).0@ == k;
                        let m = if j < i { j } else { j - 1 };
                        assert(after[m].0@ == k);
                    }
                    assert forall|j: int| 0 <= j < after.len() implies map.contains_key(
                        (#[trigger] after[j]).0@,
                    ) && map[after[j].0@] == after[j].1 by {
                        let x = if j < i { j } else { j + 1 };
                        assert(before[x] == after[j]);
                        assert(before[x].0@ != before[i as int].0@);
                    }
                    lemma_rows_map_is(after, map);
                }
                Some(entry.1)
            },
            None => {
                assert(self@.remove(key@) =~= self@);
                None
            },
        }
    }

    /// Takes everything out.
    pub fn drain(&mut self) -> (r: Vec<(RowKey, T)>)
        requires
            old(self).wf(),
        ensures
            final(self).wf(),
            final(self)@ == Map::<Row, T>::empty(),
            r@ == old(self).listing(),
            rows_map(r@) == old(self)@,
            distinct_rows(r@),
    {
        let mut out: Vec<(RowKey, T)> = Vec::new();
        std::mem::swap(&mut out, &mut self.rows);
        out
    }

    /// Forgets the entries of a client.
    pub fn remove_client(&mut self, client_id: &str)
        requires
            old(self).wf(),
        ensures
            final(self).wf(),
            final(self)@ == without_client(old(self)@, client_id@),
    {
        let ghost before = self.rows@;
        proof {
            lemma_rows_map(before);
        }
        let mut taken: Vec<(RowKey, T)> = Vec::new();
        std::mem::swap(&mut taken, &mut self.rows);
        let mut rows: Vec<(RowKey, T)> = Vec::new();
        let ghost mut from: Seq<int> = Seq::empty();
        for row in it: taken
            invariant
                it.seq() == before,
                from.len() == rows@.len(),
                forall|j: int|
                    #![trigger rows@[j]]
                    #![trigger from[j]]
                    0 <= j < rows@.len() ==> 0 <= from[j] < it.index() && rows@[j]
                        == before[from[j]] && before[from[j]].0@.0 != client_id@,
                forall|i: int, j: int|
                    #![trigger from[i], from[j]]
                    0 <= i < j < from.len() ==> from[i] < from[j],
                forall|i: int|
                    0 <= i < it.index() && (#[trigger] before[i]).0@.0 != client_id@
                        ==> from.contains(i),
        {
            if !same_text(row.0.client_id.as_str(), client_id) {
                let ghost earlier = from;
                rows.push(row);
                proof {
                    from = from.push(it.index() as int);
                    assert forall|i: int|
                        0 <= i <= it.index() && (#[trigger] before[i]).0@.0
                            != client_id@ implies from.contains(i) by {
                        if i < it.index() {
                            assert(earlier.contains(i));
                            let m = choose|m: int| 0 <= m < earlier.len() && earlier[m] == i;
                            assert(from[m] == i);
                        } else {
                            assert(from[from.len() - 1] == i);
                        }
                    }
                }
            }
        }
        proof {
            let after = rows@;
            let map = without_client(rows_map(before), client_id@);
            assert forall|i: int, j: int|
                #![trigger after[i], after[j]]
                0 <= i < j < after.len() implies after[i].0@ != after[j].0@ by {
                assert(from[i] < from[j]);
                assert(before[from[i]].0@ != before[from[j]].0@);
            }
            assert forall|i: int| 0 <= i < after.len() implies map.contains_key(
                (#[trigger] after[i]).0@,
            ) && map[after[i].0@] == after[i].1 by {
                assert(after[i] == before[from[i]]);
            }
            assert forall|k: Row| #[trigger] map.contains_key(k) implies exists|i: int|
                0 <= i < after.len() && (#[trigger] after[i]).0@ == k by {
                let i = choose|i: int| 0 <= i < before.len() && (#[trigger] before[i]).0@ == k;
                assert(from.contains(i));
                let m = choose|m: int| 0 <= m < from.len() && from[m] == i;
                assert(after[m].0@ == k);
            }
            lemma_rows_map_is(after, map);
        }
        self.rows = rows;
    }
}

} // verus!
