//! A table keyed by text: an association list in which no key occurs twice.

use vstd::prelude::*;
use crate::text;

verus! {

/// One row of a [`Table`].
pub struct Row<V> {
    /// Key of the row
    pub key: String,
    /// Value of the row
    pub value: V,
}

/// A table keyed by text. Rows keep the order in which their keys came in.
pub struct Table<V> {
    rows: Vec<Row<V>>,
}

/// Whether some row carries the key.
pub open spec fn holds<V>(rows: Seq<Row<V>>, key: Seq<char>) -> bool {
    exists|i: int| 0 <= i < rows.len() && (#[trigger] rows[i]).key@ == key
}

/// The place of a key among the rows.
pub open spec fn place<V>(rows: Seq<Row<V>>, key: Seq<char>) -> int {
    choose|i: int| 0 <= i < rows.len() && (#[trigger] rows[i]).key@ == key
}

/// No key occurs twice.
pub open spec fn keys_unique<V>(rows: Seq<Row<V>>) -> bool {
    forall|i: int, j: int|
        0 <= i < rows.len() && 0 <= j < rows.len() && (#[trigger] rows[i]).key@ == (
        #[trigger] rows[j]).key@ ==> i == j
}

/// The finite map that the rows stand for.
pub open spec fn as_map<V>(rows: Seq<Row<V>>) -> Map<Seq<char>, V> {
    Map::new(|k: Seq<char>| holds(rows, k), |k: Seq<char>| rows[place(rows, k)].value)
}

impl<V> View for Table<V> {
    type V = Map<Seq<char>, V>;

    closed spec fn view(&self) -> Map<Seq<char>, V> {
        as_map(self.rows@)
    }
}

proof fn lemma_lookup<V>(rows: Seq<Row<V>>, i: int)
    requires
        keys_unique(rows),
        0 <= i < rows.len(),
    ensures
        as_map(rows).dom().contains(rows[i].key@),
        as_map(rows)[rows[i].key@] == rows[i].value,
        place(rows, rows[i].key@) == i,
{
    assert(rows[i].key@ == rows[i].key@);
    assert(holds(rows, rows[i].key@));
}

proof fn lemma_update<V>(before: Seq<Row<V>>, after: Seq<Row<V>>, i: int)
    requires
        keys_unique(before),
        0 <= i < before.len(),
        after == before.update(i, after[i]),
        after[i].key@ == before[i].key@,
    ensures
        keys_unique(after),
        as_map(after) == as_map(before).insert(after[i].key@, after[i].value),
        as_map(before).dom().contains(after[i].key@),
{
    let key = after[i].key@;
    let value = after[i].value;
    assert forall|a: int, b: int|
        0 <= a < after.len() && 0 <= b < after.len() && (#[trigger] after[a]).key@ == (
        #[trigger] after[b]).key@ implies a == b by {
        assert(after[a].key@ == before[a].key@);
        assert(after[b].key@ == before[b].key@);
    }
    assert forall|k: Seq<char>| holds(after, k) == holds(before, k) by {
        if holds(before, k) {
            let p = place(before, k);
            assert(after[p].key@ == k);
        }
        if holds(after, k) {
            let p = place(after, k);
            assert(before[p].key@ == k);
        }
    }
    assert forall|k: Seq<char>| #[trigger] as_map(after).dom().contains(k) implies as_map(after)[k]
        == as_map(before).insert(key, value)[k] by {
        assert(holds(after, k));
        let p = place(after, k);
        assert(after[p].key@ == k);
        assert(before[p].key@ == k);
        lemma_lookup(before, p);
    }
    lemma_lookup(before, i);
    assert(as_map(after) =~= as_map(before).insert(key, value));
}

impl<V> Table<V> {
    /// Keys occur once.
    pub closed spec fn wf(self) -> bool {
        keys_unique(self.rows@)
    }

    /// The rows in the order in which their keys came in.
    pub closed spec fn rows(self) -> Seq<Row<V>> {
        self.rows@
    }

    /// The map is what the rows say, and a row is what the map says.
    pub proof fn lemma_rows(self)
        requires
            self.wf(),
        ensures
            keys_unique(self.rows()),
            self@ == as_map(self.rows()),
            forall|i: int|
                0 <= i < self.rows().len() ==> self@.dom().contains(
                    (#[trigger] self.rows()[i]).key@,
                ) && self@[self.rows()[i].key@] == self.rows()[i].value,
            forall|k: Seq<char>| #[trigger]
                self@.dom().contains(k) ==> 0 <= place(self.rows(), k) < self.rows().len()
                    && self.rows()[place(self.rows(), k)].key@ == k
                    && self.rows()[place(self.rows(), k)].value == self@[k],
    {
        assert forall|i: int| 0 <= i < self.rows().len() implies self@.dom().contains(
            (#[trigger] self.rows()[i]).key@,
        ) && self@[self.rows()[i].key@] == self.rows()[i].value by {
            lemma_lookup(self.rows@, i);
        }
        assert forall|k: Seq<char>| #[trigger] self@.dom().contains(k) implies 0 <= place(
            self.rows(),
            k,
        ) < self.rows().len() && self.rows()[place(self.rows(), k)].key@ == k
            && self.rows()[place(self.rows(), k)].value == self@[k] by {
            assert(holds(self.rows@, k));
        }
    }

    /// A table without rows.
    pub fn new() -> (r: Self)
        ensures
            r.wf(),
            r@ == Map::<Seq<char>, V>::empty(),
            r.rows() == Seq::<Row<V>>::empty(),
    {
        let r = Table { rows: Vec::new() };
        proof {
            assert(r.rows@ =~= Seq::<Row<V>>::empty());
            assert(r@ =~= Map::<Seq<char>, V>::empty());
        }
        r
    }

    /// How many rows there are.
    pub fn len(&self) -> (r: usize)
        ensures
            r == self.rows().len(),
    {
        self.rows.len()
    }

    /// The row at a place.
    pub fn row(&self, i: usize) -> (r: &Row<V>)
        requires
            i < self.rows().len(),
        ensures
            *r == self.rows()[i as int],
    {
        &self.rows[i]
    }

    fn find(&self, key: &str) -> (r: Option<usize>)
        requires
            self.wf(),
        ensures
            r is Some <==> self@.dom().contains(key@),
            r is Some ==> r->0 < self.rows@.len() && self.rows@[r->0 as int].key@ == key@
                && self@[key@] == self.rows@[r->0 as int].value,
    {
        let mut i: usize = 0;
        while i < self.rows.len()
            invariant
                self.wf(),
                i <= self.rows@.len(),
                forall|j: int| 0 <= j < i ==> (#[trigger] self.rows@[j]).key@ != key@,
            decreases self.rows@.len() - i,
        {
            if text::same(self.rows[i].key.as_str(), key) {
                proof {
                    lemma_lookup(self.rows@, i as int);
                }
                return Some(i);
            }
            i += 1;
        }
        None
    }

    /// Whether the key has a row.
    pub fn contains(&self, key: &str) -> (r: bool)
        requires
            self.wf(),
        ensures
            r == self@.dom().contains(key@),
    {
        self.find(key).is_some()
    }

    /// The value of a key.
    pub fn get(&self, key: &str) -> (r: Option<&V>)
        requires
            self.wf(),
        ensures
            match r {
                Some(v) => self@.dom().contains(key@) && *v == self@[key@],
                None => !self@.dom().contains(key@),
            },
    {
        match self.find(key) {
            Some(i) => Some(&self.rows[i].value),
            None => None,
        }
    }

    /// Gives the key a value; the value that it had comes back.
    pub fn insert(&mut self, key: String, value: V) -> (r: Option<V>)
        requires
            old(self).wf(),
        ensures
            final(self).wf(),
            final(self)@ == old(self)@.insert(key@, value),
            match r {
                Some(v) => old(self)@.dom().contains(key@) && v == old(self)@[key@],
                None => !old(self)@.dom().contains(key@),
            },
    {
        match self.find(key.as_str()) {
            Some(i) => {
                let ghost before = self.rows@;
                let mut row = Row { key: key, value: value };
                std::mem::swap(&mut self.rows[i], &mut row);
                proof {
                    assert(self.rows@ =~= before.update(i as int, self.rows@[i as int]));
                    lemma_update(before, self.rows@, i as int);
                }
                Some(row.value)
            },
            None => {
                let ghost before = self.rows@;
                self.rows.push(Row { key: key, value: value });
                proof {
                    let n = before.len() as int;
                    assert forall|j: int| 0 <= j < n implies (#[trigger] before[j]).key@ != key@ by {
                        if before[j].key@ == key@ {
                            assert(holds(before, key@));
                        }
                    }
                    assert forall|a: int, b: int|
                        0 <= a < self.rows@.len() && 0 <= b < self.rows@.len() && (
                        #[trigger] self.rows@[a]).key@ == (#[trigger] self.rows@[b]).key@ implies a
                        == b by {
                        if a < n && b < n {
                            assert(self.rows@[a] == before[a]);
                            assert(self.rows@[b] == before[b]);
                        }
                    }
                    assert forall|k: Seq<char>| #[trigger] holds(self.rows@, k) == (k == key@
                        || holds(before, k)) by {
                        if holds(before, k) {
                            let p = place(before, k);
                            assert(self.rows@[p] == before[p]);
                        }
                        if k == key@ {
                            assert(self.rows@[n].key@ == k);
                        }
                        if holds(self.rows@, k) {
                            let p = place(self.rows@, k);
                            assert(self.rows@[p].key@ == k);
                            if p < n {
                                assert(before[p].key@ == k);
                            }
                        }
                    }
                    assert forall|k: Seq<char>| #[trigger]
                        as_map(self.rows@).dom().contains(k) implies as_map(self.rows@)[k]
                        == as_map(before).insert(key@, value)[k] by {
                        assert(holds(self.rows@, k));
                        let p = place(self.rows@, k);
                        assert(self.rows@[p].key@ == k);
                        if p < n {
                            assert(before[p].key@ == k);
                            lemma_lookup(before, p);
                        }
                    }
                    assert(as_map(self.rows@) =~= as_map(before).insert(key@, value));
                }
                None
            },
        }
    }

    /// Replaces the value of the row at a place.
    pub fn set(&mut self, i: usize, value: V)
        requires
            old(self).wf(),
            i < old(self).rows().len(),
        ensures
            final(self).wf(),
            final(self).rows() == old(self).rows().update(
                i as int,
                (Row { key: old(self).rows()[i as int].key, value: value }),
            ),
            final(self)@ == old(self)@.insert(old(self).rows()[i as int].key@, value),
    {
        let ghost before = self.rows@;
        let key = self.rows[i].key.clone();
        let mut row = Row { key: key, value: value };
        std::mem::swap(&mut self.rows[i], &mut row);
        proof {
            assert(self.rows@ =~= before.update(i as int, self.rows@[i as int]));
            lemma_update(before, self.rows@, i as int);
        }
    }

    /// Takes the key's row out; its value comes back.
    pub fn remove(&mut self, key: &str) -> (r: Option<V>)
        requires
            old(self).wf(),
        ensures
            final(self).wf(),
            final(self)@ == old(self)@.remove(key@),
            match r {
                Some(v) => old(self)@.dom().contains(key@) && v == old(self)@[key@],
                None => !old(self)@.dom().contains(key@) && final(self)@ == old(self)@,
            },
    {
        match self.find(key) {
            Some(i) => {
                let ghost before = self.rows@;
                let row = self.rows.remove(i);
                proof {
                    let after = self.rows@;
                    assert(after =~= before.remove(i as int));
                    assert forall|a: int, b: int|
                        0 <= a < after.len() && 0 <= b < after.len() && (#[trigger] after[a]).key@
                            == (#[trigger] after[b]).key@ implies a == b by {
                        let a0 = if a < i { a } else { a + 1 };
                        let b0 = if b < i { b } else { b + 1 };
                        assert(after[a] == before[a0]);
                        assert(after[b] == before[b0]);
                    }
                    assert forall|k: Seq<char>| #[trigger] holds(after, k) == (k != key@ && holds(
                        before,
                        k,
                    )) by {
                        if holds(after, k) {
                            let p = place(after, k);
                            let p0 = if p < i { p } else { p + 1 };
                            assert(after[p] == before[p0]);
                            assert(before[p0].key@ == k);
                        }
                        if k != key@ && holds(before, k) {
                            let p0 = place(before, k);
                            let p = if p0 < i { p0 } else { p0 - 1 };
                            assert(before[p0].key@ == k);
                            assert(after[p] == before[p0]);
                        }
                    }
                    assert forall|k: Seq<char>| #[trigger] as_map(after).dom().contains(k) implies as_map(
                        after,
                    )[k] == as_map(before).remove(key@)[k] by {
                        assert(holds(after, k));
                        let p = place(after, k);
                        let p0 = if p < i { p } else { p + 1 };
                        assert(after[p] == before[p0]);
                        assert(before[p0].key@ == k);
                        lemma_lookup(before, p0);
                    }
                    assert(as_map(after) =~= as_map(before).remove(key@));
                }
                Some(row.value)
            },
            None => {
                proof {
                    assert(self@.remove(key@) =~= self@);
                }
                None
            },
        }
    }
}

} // verus!
