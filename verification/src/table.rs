//! A small association table: string keys, each present at most once,
//! in insertion order. The persistence gateway's row stores and the
//! progress cache's shape are all instances of this model.

use vstd::prelude::*;
use crate::strutil::str_eq;

verus! {

pub struct Table<V> {
    entries: Vec<(String, V)>,
}

impl<V> Table<V> {
    pub closed spec fn keys(self) -> Seq<Seq<char>> {
        self.entries@.map_values(|e: (String, V)| e.0@)
    }

    pub closed spec fn values(self) -> Seq<V> {
        self.entries@.map_values(|e: (String, V)| e.1)
    }

    pub open spec fn len(self) -> nat {
        self.keys().len()
    }

    /// One value for each key, and no key present twice.
    pub open spec fn wf(self) -> bool {
        &&& self.values().len() == self.keys().len()
        &&& forall|i: int, j: int|
            0 <= i < j < self.keys().len() ==> self.keys()[i] != self.keys()[j]
    }

    pub open spec fn spec_contains(self, key: Seq<char>) -> bool {
        exists|i: int| 0 <= i < self.keys().len() && self.keys()[i] == key
    }

    pub open spec fn index_of(self, key: Seq<char>) -> int {
        choose|i: int| 0 <= i < self.keys().len() && self.keys()[i] == key
    }

    /// The value stored under a key (meaningful only when present).
    pub open spec fn value_of(self, key: Seq<char>) -> V {
        self.values()[self.index_of(key)]
    }

    pub fn new() -> (r: Table<V>)
        ensures
            r.wf(),
            r.len() == 0,
            forall|key: Seq<char>| !r.spec_contains(key),
    {
        Table { entries: Vec::new() }
    }

    pub fn length(&self) -> (n: usize)
        ensures
            n == self.len(),
    {
        self.entries.len()
    }

    /// The pair at a position, for walking the table in order.
    pub fn pair_at(&self, i: usize) -> (r: &(String, V))
        requires
            i < self.len(),
        ensures
            r.0@ == self.keys()[i as int],
            r.1 == self.values()[i as int],
    {
        &self.entries[i]
    }

    fn find(&self, key: &str) -> (r: Option<usize>)
        ensures
            match r {
                Some(i) => i < self.keys().len() && self.keys()[i as int] == key@,
                None => !self.spec_contains(key@),
            },
    {
        let n = self.entries.len();
        let mut i: usize = 0;
        while i < n
            invariant
                i <= n,
                n == self.keys().len(),
                forall|k: int| 0 <= k < i ==> self.keys()[k] != key@,
            decreases n - i,
        {
            let e = &self.entries[i];
            if str_eq(e.0.as_str(), key) {
                return Some(i);
            }
            i += 1;
        }
        None
    }

    pub fn contains(&self, key: &str) -> (r: bool)
        ensures
            r == self.spec_contains(key@),
    {
        self.find(key).is_some()
    }

    /// A reference to the value stored under `key`, if any.
    pub fn get(&self, key: &str) -> (r: Option<&V>)
        requires
            self.wf(),
        ensures
            match r {
                Some(v) => self.spec_contains(key@) && *v == self.value_of(key@),
                None => !self.spec_contains(key@),
            },
    {
        match self.find(key) {
            Some(i) => {
                proof {
                    let j = self.index_of(key@);
                    assert(self.keys()[j] == key@);
                    assert(j == i);
                }
                Some(&self.entries[i].1)
            },
            None => None,
        }
    }

    /// Inserts or overwrites the value under `key`.
    pub fn put(&mut self, key: &str, value: V)
        requires
            old(self).wf(),
        ensures
            final(self).wf(),
            final(self).spec_contains(key@),
            final(self).value_of(key@) == value,
            forall|other: Seq<char>|
                other != key@ ==> final(self).spec_contains(other) == old(self).spec_contains(
                    other,
                ),
            forall|other: Seq<char>|
                other != key@ && old(self).spec_contains(other) ==> final(self).value_of(other)
                    == old(self).value_of(other),
            old(self).spec_contains(key@) ==> final(self).keys() == old(self).keys(),
            !old(self).spec_contains(key@) ==> final(self).keys() == old(self).keys().push(key@),
    {
        let ghost old_keys = self.keys();
        let ghost old_vals = self.values();
        match self.find(key) {
            Some(i) => {
                let k = self.entries[i].0.clone();
                self.entries[i] = (k, value);
                proof {
                    assert(self.keys() =~= old_keys);
                    assert(self.values() =~= old_vals.update(i as int, value));
                    let j = self.index_of(key@);
                    assert(self.keys()[j] == key@);
                    assert(j == i);
                    assert forall|other: Seq<char>|
                        other != key@ && old(self).spec_contains(other) implies self.value_of(
                        other,
                    ) == old(self).value_of(other) by {
                        let m = old(self).index_of(other);
                        assert(old_keys[m] == other);
                        assert(self.keys()[m] == other);
                        let m2 = self.index_of(other);
                        assert(m2 == m);
                        assert(m != i);
                    }
                }
            },
            None => {
                self.entries.push((key.to_owned(), value));
                proof {
                    assert(self.keys() =~= old_keys.push(key@));
                    assert(self.values() =~= old_vals.push(value));
                    let n = self.keys().len() - 1;
                    assert(self.keys()[n] == key@);
                    let j = self.index_of(key@);
                    assert(self.keys()[j] == key@);
                    assert(j == n);
                    assert forall|other: Seq<char>|
                        other != key@ implies self.spec_contains(other) == old(
                        self,
                    ).spec_contains(other) by {
                        if old(self).spec_contains(other) {
                            let m = choose|m: int|
                                0 <= m < old_keys.len() && old_keys[m] == other;
                            assert(self.keys()[m] == other);
                        }
                        if self.spec_contains(other) {
                            let m = choose|m: int|
                                0 <= m < self.keys().len() && self.keys()[m] == other;
                            assert(m != n);
                            assert(old_keys[m] == other);
                        }
                    }
                    assert forall|other: Seq<char>|
                        other != key@ && old(self).spec_contains(other) implies self.value_of(
                        other,
                    ) == old(self).value_of(other) by {
                        let m = old(self).index_of(other);
                        assert(old_keys[m] == other);
                        assert(self.keys()[m] == other);
                        let m2 = self.index_of(other);
                        assert(m2 == m);
                    }
                }
            },
        }
    }

    /// Inserts under a key that must not be taken yet; the value comes
    /// back when it is.
    pub fn insert_new(&mut self, key: String, value: V) -> (r: Result<(), V>)
        requires
            old(self).wf(),
        ensures
            final(self).wf(),
            old(self).spec_contains(key@) ==> (r matches Err(v) && v == value && *final(self)
                == *old(self)),
            !old(self).spec_contains(key@) ==> {
                &&& r is Ok
                &&& final(self).keys() == old(self).keys().push(key@)
                &&& final(self).values() == old(self).values().push(value)
                &&& final(self).spec_contains(key@)
                &&& final(self).value_of(key@) == value
                &&& forall|other: Seq<char>|
                    other != key@ ==> final(self).spec_contains(other) == old(
                        self,
                    ).spec_contains(other)
                &&& forall|other: Seq<char>|
                    other != key@ && old(self).spec_contains(other) ==> final(self).value_of(
                        other,
                    ) == old(self).value_of(other)
            },
    {
        if self.find(key.as_str()).is_some() {
            return Err(value);
        }
        let ghost old_keys = self.keys();
        let ghost old_vals = self.values();
        self.entries.push((key, value));
        proof {
            assert(self.keys() =~= old_keys.push(key@));
            assert(self.values() =~= old_vals.push(value));
            let n = self.keys().len() - 1;
            assert(self.keys()[n] == key@);
            let j = self.index_of(key@);
            assert(self.keys()[j] == key@);
            assert(j == n);
            assert forall|other: Seq<char>|
                other != key@ implies self.spec_contains(other) == old(self).spec_contains(
                other,
            ) by {
                if old(self).spec_contains(other) {
                    let m = choose|m: int| 0 <= m < old_keys.len() && old_keys[m] == other;
                    assert(self.keys()[m] == other);
                }
                if self.spec_contains(other) {
                    let m = choose|m: int|
                        0 <= m < self.keys().len() && self.keys()[m] == other;
                    assert(m != n);
                    assert(old_keys[m] == other);
                }
            }
            assert forall|other: Seq<char>|
                other != key@ && old(self).spec_contains(other) implies self.value_of(other)
                == old(self).value_of(other) by {
                let m = old(self).index_of(other);
                assert(old_keys[m] == other);
                assert(self.keys()[m] == other);
                let m2 = self.index_of(other);
                assert(m2 == m);
            }
        }
        Ok(())
    }

    /// Removes the value under `key`, if any.
    pub fn remove(&mut self, key: &str) -> (r: Option<V>)
        requires
            old(self).wf(),
        ensures
            final(self).wf(),
            !final(self).spec_contains(key@),
            match r {
                Some(v) => old(self).spec_contains(key@) && v == old(self).value_of(key@)
                    && final(self).keys() == old(self).keys().remove(old(self).index_of(key@)),
                None => !old(self).spec_contains(key@) && *final(self) == *old(self),
            },
            forall|other: Seq<char>|
                other != key@ ==> final(self).spec_contains(other) == old(self).spec_contains(
                    other,
                ),
            forall|other: Seq<char>|
                other != key@ && old(self).spec_contains(other) ==> final(self).value_of(other)
                    == old(self).value_of(other),
    {
        let ghost old_keys = self.keys();
        let ghost old_vals = self.values();
        match self.find(key) {
            Some(i) => {
                let e = self.entries.remove(i);
                proof {
                    assert(self.keys() =~= old_keys.remove(i as int));
                    assert(self.values() =~= old_vals.remove(i as int));
                    let j = old(self).index_of(key@);
                    assert(old_keys[j] == key@);
                    assert(j == i);
                    assert forall|k: int| 0 <= k < self.keys().len() implies self.keys()[k]
                        != key@ by {
                        if k < i {
                            assert(self.keys()[k] == old_keys[k]);
                        } else {
                            assert(self.keys()[k] == old_keys[k + 1]);
                        }
                    }
                    assert forall|other: Seq<char>|
                        other != key@ && old(self).spec_contains(other) implies self.spec_contains(
                        other,
                    ) && self.value_of(other) == old(self).value_of(other) by {
                        let k = old(self).index_of(other);
                        assert(old_keys[k] == other);
                        assert(k != i);
                        if k < i {
                            assert(self.keys()[k] == other);
                        } else {
                            assert(self.keys()[k - 1] == other);
                        }
                        let k2 = self.index_of(other);
                        assert(self.keys()[k2] == other);
                        if k < i {
                            assert(k2 == k);
                            assert(old_vals[k] == self.values()[k2]);
                        } else {
                            assert(k2 == k - 1);
                            assert(old_vals[k] == self.values()[k2]);
                        }
                    }
                    assert forall|other: Seq<char>|
                        other != key@ && self.spec_contains(other) implies old(
                        self,
                    ).spec_contains(other) by {
                        let k = choose|k: int|
                            0 <= k < self.keys().len() && self.keys()[k] == other;
                        if k < i {
                            assert(old_keys[k] == other);
                        } else {
                            assert(old_keys[k + 1] == other);
                        }
                    }
                }
                Some(e.1)
            },
            None => None,
        }
    }

    /// Empties the table, handing every entry back.
    pub fn drain(&mut self) -> (r: Vec<(String, V)>)
        requires
            old(self).wf(),
        ensures
            final(self).wf(),
            final(self).len() == 0,
            forall|key: Seq<char>| !final(self).spec_contains(key),
            r@.map_values(|e: (String, V)| e.0@) == old(self).keys(),
            r@.map_values(|e: (String, V)| e.1) == old(self).values(),
    {
        let mut out: Vec<(String, V)> = Vec::new();
        core::mem::swap(&mut out, &mut self.entries);
        out
    }

    /// Empties the table.
    pub fn clear(&mut self)
        requires
            old(self).wf(),
        ensures
            final(self).wf(),
            final(self).len() == 0,
            forall|key: Seq<char>| !final(self).spec_contains(key),
    {
        self.entries.clear();
    }
}

} // verus!
