use vstd::prelude::*;

use crate::model::distinct_keys;
use crate::model::lemma_key_position;

verus! {

/// A side table of singleton "resource" values, keyed by caller-chosen `u64`
/// type keys: at most one value per key exists at a time, independent of any
/// entity.
pub struct Resource<T> {
    /// The keys currently present, each at most once.
    pub keys: Vec<u64>,
    /// The stored values, index-aligned with `keys`.
    pub vals: Vec<T>,
}

impl<T> Resource<T> {
    /// Validity: one value per key, and no key twice.
    pub open spec fn wf(self) -> bool {
        self.keys@.len() == self.vals@.len() && distinct_keys(self.keys@)
    }

    /// Whether a value is stored under `key`.
    pub open spec fn spec_contains(self, key: u64) -> bool {
        self.keys@.contains(key)
    }

    /// The value stored under `key`.
    pub open spec fn spec_get(self, key: u64) -> T {
        self.vals@[self.keys@.index_of(key)]
    }

    /// All keys other than `key` keep their presence and value from `old`.
    pub open spec fn others_preserved(self, old: Resource<T>, key: u64) -> bool {
        forall|k2: u64|
            k2 != key ==> (#[trigger] self.spec_contains(k2) == old.spec_contains(k2) && (
            old.spec_contains(k2) ==> self.spec_get(k2) == old.spec_get(k2)))
    }

    /// The position of `key`, if present.
    fn find(&self, key: u64) -> (r: Option<usize>)
        ensures
            (match r {
                Some(i) => i < self.keys@.len() && self.keys@[i as int] == key,
                None => !self.keys@.contains(key),
            }),
    {
        let n = self.keys.len();
        let mut i: usize = 0;
        while i < n
            invariant
                n == self.keys@.len(),
                i <= n,
                forall|j: int| 0 <= j < i ==> self.keys@[j] != key,
            decreases n - i,
        {
            if self.keys[i] == key {
                return Some(i);
            }
            i += 1;
        }
        None
    }

    /// Stores `data` under `key`, replacing any previous value for that key
    /// and leaving every other key untouched.
    pub fn add(&mut self, key: u64, data: T)
        requires
            old(self).wf(),
        ensures
            final(self).wf(),
            final(self).spec_contains(key),
            final(self).spec_get(key) == data,
            final(self).others_preserved(*old(self), key),
    {
        let found = self.find(key);
        match found {
            Some(i) => {
                self.vals[i] = data;
                proof {
                    lemma_key_position(self.keys@, i as int, key);
                    assert forall|k2: u64| k2 != key implies (#[trigger] self.spec_contains(k2)
                        == old(self).spec_contains(k2) && (old(self).spec_contains(k2)
                        ==> self.spec_get(k2) == old(self).spec_get(k2))) by {
                        if old(self).spec_contains(k2) {
                            let j = self.keys@.index_of(k2);
                            assert(0 <= j < self.keys@.len() && self.keys@[j] == k2);
                            assert(j != i);
                        }
                    }
                }
            },
            None => {
                self.keys.push(key);
                self.vals.push(data);
                proof {
                    assert forall|a: int, b: int|
                        0 <= a < b < self.keys@.len() implies self.keys@[a] != self.keys@[b] by {
                        if b == self.keys@.len() - 1 {
                            if self.keys@[a] == key {
                                assert(old(self).keys@.contains(key));
                            }
                        }
                    }
                    lemma_key_position(self.keys@, self.keys@.len() - 1, key);
                    assert forall|k2: u64| k2 != key implies (#[trigger] self.spec_contains(k2)
                        == old(self).spec_contains(k2) && (old(self).spec_contains(k2)
                        ==> self.spec_get(k2) == old(self).spec_get(k2))) by {
                        if old(self).spec_contains(k2) {
                            let j = old(self).keys@.index_of(k2);
                            assert(0 <= j < old(self).keys@.len() && old(self).keys@[j] == k2);
                            assert(self.keys@[j] == k2);
                            lemma_key_position(self.keys@, j, k2);
                        } else {
                            if self.spec_contains(k2) {
                                let j = choose|j: int|
                                    0 <= j < self.keys@.len() && self.keys@[j] == k2;
                                assert(j == self.keys@.len() - 1);
                                assert(false);
                            }
                        }
                    }
                }
            },
        }
    }

    /// A shared reference to the value stored under `key`, if any.
    pub fn get_ref(&self, key: u64) -> (r: Option<&T>)
        requires
            self.wf(),
        ensures
            (match r {
                Some(v) => self.spec_contains(key) && *v == self.spec_get(key),
                None => !self.spec_contains(key),
            }),
    {
        let found = self.find(key);
        match found {
            Some(i) => {
                proof {
                    lemma_key_position(self.keys@, i as int, key);
                }
                Some(&self.vals[i])
            },
            None => None,
        }
    }

    /// An exclusive reference to the value stored under `key`, if any: the
    /// caller's writes through it land on that one value and nothing else
    /// changes.
    pub fn get_mut(&mut self, key: u64) -> (r: Option<&mut T>)
        requires
            old(self).wf(),
        ensures
            (match r {
                Some(p) => old(self).spec_contains(key) && *p == old(self).spec_get(key)
                    && final(self).wf() && final(self).keys@ == old(self).keys@
                    && final(self).vals@ == old(self)
                    .vals@
                    .update(old(self).keys@.index_of(key), *final(p)),
                None => !old(self).spec_contains(key) && *final(self) == *old(self),
            }),
    {
        let found = self.find(key);
        match found {
            Some(i) => {
                proof {
                    lemma_key_position(self.keys@, i as int, key);
                }
                Some(&mut self.vals[i])
            },
            None => None,
        }
    }

    /// Removes the value stored under `key`, if any; every other key keeps
    /// its value. Removing an absent key is a no-op.
    pub fn remove(&mut self, key: u64)
        requires
            old(self).wf(),
        ensures
            final(self).wf(),
            !final(self).spec_contains(key),
            final(self).others_preserved(*old(self), key),
    {
        let found = self.find(key);
        match found {
            Some(i) => {
                self.keys.remove(i);
                self.vals.remove(i);
                proof {
                    assert forall|a: int, b: int|
                        0 <= a < b < self.keys@.len() implies self.keys@[a] != self.keys@[b] by {
                        let oa = if a < i as int {
                            a
                        } else {
                            a + 1
                        };
                        let ob = if b < i as int {
                            b
                        } else {
                            b + 1
                        };
                        assert(self.keys@[a] == old(self).keys@[oa]);
                        assert(self.keys@[b] == old(self).keys@[ob]);
                    }
                    if self.spec_contains(key) {
                        let j = choose|j: int| 0 <= j < self.keys@.len() && self.keys@[j] == key;
                        let oj = if j < i as int {
                            j
                        } else {
                            j + 1
                        };
                        assert(old(self).keys@[oj] == key);
                        lemma_key_position(old(self).keys@, oj, key);
                        lemma_key_position(old(self).keys@, i as int, key);
                        assert(false);
                    }
                    assert forall|k2: u64| k2 != key implies (#[trigger] self.spec_contains(k2)
                        == old(self).spec_contains(k2) && (old(self).spec_contains(k2)
                        ==> self.spec_get(k2) == old(self).spec_get(k2))) by {
                        lemma_key_position(old(self).keys@, i as int, key);
                        if old(self).spec_contains(k2) {
                            let oj = old(self).keys@.index_of(k2);
                            assert(0 <= oj < old(self).keys@.len() && old(self).keys@[oj] == k2);
                            assert(oj != i);
                            let j = if oj < i as int {
                                oj
                            } else {
                                oj - 1
                            };
                            assert(self.keys@[j] == k2);
                            lemma_key_position(self.keys@, j, k2);
                            assert(self.vals@[j] == old(self).vals@[oj]);
                        } else {
                            if self.spec_contains(k2) {
                                let j = choose|j: int|
                                    0 <= j < self.keys@.len() && self.keys@[j] == k2;
                                let oj = if j < i as int {
                                    j
                                } else {
                                    j + 1
                                };
                                assert(old(self).keys@[oj] == k2);
                                assert(old(self).keys@.contains(k2));
                                assert(false);
                            }
                        }
                    }
                }
            },
            None => {},
        }
    }
}

impl<T> Default for Resource<T> {
    /// An empty side table.
    fn default() -> (r: Self)
        ensures
            r.wf(),
            r.keys@.len() == 0,
    {
        Resource { keys: Vec::new(), vals: Vec::new() }
    }
}

} // verus!
