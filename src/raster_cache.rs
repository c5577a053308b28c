//! A fixed-capacity cache of source rasters keyed by the whole-degree
//! latitude and longitude of their lower left corner, evicting the least
//! recently used, with at most one load in flight per key.

use vstd::prelude::*;

verus! {

/// Whole-degree latitude and longitude of a raster tile's lower left corner.
pub type RasterKey = (i16, i16);

/// Position of `key` in `entries`, if it is there.
pub open spec fn key_index<T>(entries: Seq<(RasterKey, T)>, key: RasterKey) -> Option<int> {
    if exists|i: int| 0 <= i < entries.len() && entries[i].0 == key {
        Some(choose|i: int| 0 <= i < entries.len() && entries[i].0 == key)
    } else {
        None
    }
}

/// No key appears twice.
pub open spec fn distinct_keys<T>(entries: Seq<(RasterKey, T)>) -> bool {
    forall|i: int, j: int|
        0 <= i < entries.len() && 0 <= j < entries.len() && i != j ==> (#[trigger] entries[i]).0 != (
        #[trigger] entries[j]).0
}

/// The cached rasters, least recently used first, and the keys being loaded.
pub struct RasterCache<T> {
    capacity: usize,
    entries: Vec<(RasterKey, T)>,
    loading: Vec<RasterKey>,
}

impl<T> RasterCache<T> {
    pub closed spec fn spec_capacity(&self) -> nat {
        self.capacity as nat
    }

    /// The cached rasters, least recently used first.
    pub closed spec fn spec_entries(&self) -> Seq<(RasterKey, T)> {
        self.entries@
    }

    /// The keys whose load is in flight.
    pub closed spec fn spec_loading(&self) -> Seq<RasterKey> {
        self.loading@
    }

    /// At most `capacity` rasters, no key cached twice, and no key loaded twice.
    pub open spec fn wf(&self) -> bool {
        &&& self.spec_entries().len() <= self.spec_capacity()
        &&& distinct_keys(self.spec_entries())
        &&& forall|i: int, j: int|
            0 <= i < self.spec_loading().len() && 0 <= j < self.spec_loading().len() && i != j ==> #[trigger] self.spec_loading()[i]
                != #[trigger] self.spec_loading()[j]
    }

    /// An empty cache for at most `capacity` rasters.
    pub fn new(capacity: usize) -> (r: RasterCache<T>)
        ensures
            r.wf(),
            r.spec_capacity() == capacity,
            r.spec_entries().len() == 0,
            r.spec_loading().len() == 0,
    {
        RasterCache { capacity, entries: Vec::new(), loading: Vec::new() }
    }

    /// Number of cached rasters.
    pub fn len(&self) -> (r: usize)
        ensures
            r == self.spec_entries().len(),
    {
        self.entries.len()
    }

    fn position(&self, key: RasterKey) -> (r: Option<usize>)
        ensures
            r matches Some(i) ==> i < self.entries@.len() && self.entries@[i as int].0 == key,
            r is None ==> key_index(self.entries@, key) is None,
    {
        for i in 0..self.entries.len()
            invariant
                forall|j: int| 0 <= j < i ==> (#[trigger] self.entries@[j]).0 != key,
        {
            let (lat, lon) = self.entries[i].0;
            if lat == key.0 && lon == key.1 {
                return Some(i);
            }
        }
        None
    }

    fn loading_position(&self, key: RasterKey) -> (r: Option<usize>)
        ensures
            r matches Some(i) ==> i < self.loading@.len() && self.loading@[i as int] == key,
            r is None ==> !self.loading@.contains(key),
    {
        for i in 0..self.loading.len()
            invariant
                forall|j: int| 0 <= j < i ==> (#[trigger] self.loading@[j]) != key,
        {
            let (lat, lon) = self.loading[i];
            if lat == key.0 && lon == key.1 {
                return Some(i);
            }
        }
        None
    }

    /// The raster for `key`, if cached; it becomes the most recently used.
    pub fn get(&mut self, key: RasterKey) -> (r: Option<&T>)
        requires
            old(self).wf(),
        ensures
            final(self).wf(),
            final(self).spec_capacity() == old(self).spec_capacity(),
            final(self).spec_loading() == old(self).spec_loading(),
            match key_index(old(self).spec_entries(), key) {
                Some(i) => {
                    &&& r == Some(&old(self).spec_entries()[i].1)
                    &&& final(self).spec_entries() == old(self).spec_entries().remove(i).push(old(self).spec_entries()[i])
                },
                None => r is None && final(self).spec_entries() == old(self).spec_entries(),
            },
    {
        match self.position(key) {
            Some(i) => {
                let ghost before = self.entries@;
                proof {
                    let j = key_index(before, key)->Some_0;
                    assert(before[j].0 == key);
                    assert(j == i as int);
                }
                let entry = self.entries.remove(i);
                self.entries.push(entry);
                proof {
                    assert(self.entries@ == before.remove(i as int).push(before[i as int]));
                    assert forall|a: int, b: int|
                        0 <= a < self.entries@.len() && 0 <= b < self.entries@.len() && a != b implies (
                        #[trigger] self.entries@[a]).0 != (#[trigger] self.entries@[b]).0 by {
                        let ia = if a == self.entries@.len() - 1 { i as int } else if a < i { a } else { a + 1 };
                        let ib = if b == self.entries@.len() - 1 { i as int } else if b < i { b } else { b + 1 };
                        assert(self.entries@[a] == before[ia]);
                        assert(self.entries@[b] == before[ib]);
                    }
                }
                proof {
                    assert forall|a: int, b: int|
                        0 <= a < self.spec_loading().len() && 0 <= b < self.spec_loading().len() && a != b implies #[trigger] self.spec_loading()[a]
                            != #[trigger] self.spec_loading()[b] by {
                        assert(old(self).spec_loading()[a] != old(self).spec_loading()[b]);
                    }
                }
                let last = self.entries.len() - 1;
                Some(&self.entries[last].1)
            },
            None => None,
        }
    }

    /// Whether the caller should load `key`: it should unless the raster is
    /// cached or its load is already in flight, and the load is then recorded.
    pub fn begin_load(&mut self, key: RasterKey) -> (r: bool)
        requires
            old(self).wf(),
        ensures
            final(self).wf(),
            final(self).spec_capacity() == old(self).spec_capacity(),
            final(self).spec_entries() == old(self).spec_entries(),
            r == (key_index(old(self).spec_entries(), key) is None && !old(self).spec_loading().contains(key)),
            r ==> final(self).spec_loading() == old(self).spec_loading().push(key),
            !r ==> final(self).spec_loading() == old(self).spec_loading(),
    {
        if self.position(key).is_some() {
            return false;
        }
        if self.loading_position(key).is_some() {
            return false;
        }
        let ghost before = self.loading@;
        self.loading.push(key);
        proof {
            assert forall|i: int, j: int|
                0 <= i < self.loading@.len() && 0 <= j < self.loading@.len() && i != j implies #[trigger] self.loading@[i]
                    != #[trigger] self.loading@[j] by {
                if i == before.len() {
                    assert(!before.contains(key));
                    assert(self.loading@[j] == before[j]);
                } else if j == before.len() {
                    assert(!before.contains(key));
                    assert(self.loading@[i] == before[i]);
                } else {
                    assert(old(self).spec_loading()[i] != old(self).spec_loading()[j]);
                }
            }
        }
        true
    }

    /// Stores a loaded raster as the most recently used, evicting the least
    /// recently used one when the cache is full, and ends the key's load. A
    /// cache of capacity zero keeps nothing.
    pub fn insert(&mut self, key: RasterKey, value: T)
        requires
            old(self).wf(),
        ensures
            final(self).wf(),
            final(self).spec_capacity() == old(self).spec_capacity(),
            !final(self).spec_loading().contains(key),
            forall|k: RasterKey| k != key ==> (#[trigger] final(self).spec_loading().contains(k)) == old(self).spec_loading().contains(k),
            final(self).spec_entries() == if old(self).spec_capacity() == 0 {
                old(self).spec_entries()
            } else { match key_index(old(self).spec_entries(), key) {
                Some(i) => old(self).spec_entries().remove(i).push((key, value)),
                None => if old(self).spec_entries().len() < old(self).spec_capacity() {
                    old(self).spec_entries().push((key, value))
                } else {
                    old(self).spec_entries().remove(0).push((key, value))
                },
            } },
    {
        let ghost before = self.entries@;
        let ghost before_loading = self.loading@;
        match self.loading_position(key) {
            Some(k) => {
                self.loading.remove(k);
                proof {
                    assert forall|q: RasterKey| q != key implies (#[trigger] self.loading@.contains(q)) == before_loading.contains(q) by {
                        if before_loading.contains(q) {
                            let j = choose|j: int| 0 <= j < before_loading.len() && before_loading[j] == q;
                            assert(j != k);
                            if j < k {
                                assert(self.loading@[j] == q);
                            } else {
                                assert(self.loading@[j - 1] == q);
                            }
                        }
                        if self.loading@.contains(q) {
                            let j = choose|j: int| 0 <= j < self.loading@.len() && self.loading@[j] == q;
                            if j < k {
                                assert(before_loading[j] == q);
                            } else {
                                assert(before_loading[j + 1] == q);
                            }
                        }
                    }
                    if self.loading@.contains(key) {
                        let j = choose|j: int| 0 <= j < self.loading@.len() && self.loading@[j] == key;
                        if j < k {
                            assert(before_loading[j] == key);
                            assert(old(self).spec_loading()[j] != old(self).spec_loading()[k as int]);
                        } else {
                            assert(before_loading[j + 1] == key);
                            assert(old(self).spec_loading()[j + 1] != old(self).spec_loading()[k as int]);
                        }
                    }
                    assert forall|a: int, b: int|
                        0 <= a < self.loading@.len() && 0 <= b < self.loading@.len() && a != b implies #[trigger] self.loading@[a]
                            != #[trigger] self.loading@[b] by {
                        let ia = if a < k { a } else { a + 1 };
                        let ib = if b < k { b } else { b + 1 };
                        assert(self.loading@[a] == before_loading[ia] && self.loading@[b] == before_loading[ib]);
                        assert(old(self).spec_loading()[ia] != old(self).spec_loading()[ib]);
                    }
                }
            },
            None => {
                proof {
                    assert forall|a: int, b: int|
                        0 <= a < self.loading@.len() && 0 <= b < self.loading@.len() && a != b implies #[trigger] self.loading@[a]
                            != #[trigger] self.loading@[b] by {
                        assert(old(self).spec_loading()[a] != old(self).spec_loading()[b]);
                    }
                }
            },
        }
        if self.capacity == 0 {
            return;
        }
        match self.position(key) {
            Some(i) => {
                proof {
                    let j = key_index(before, key)->Some_0;
                    assert(before[j].0 == key);
                    assert(j == i as int);
                }
                self.entries.remove(i);
            },
            None => {
                if self.entries.len() >= self.capacity {
                    self.entries.remove(0);
                }
            },
        }
        let ghost mid = self.entries@;
        proof {
            assert forall|a: int| 0 <= a < mid.len() implies (#[trigger] mid[a]).0 != key by {
                if key_index(before, key) is Some {
                    let i = key_index(before, key)->Some_0;
                    let ia = if a < i { a } else { a + 1 };
                    assert(mid[a] == before[ia]);
                    assert(ia != i);
                } else if mid.len() < before.len() {
                    assert(mid[a] == before[a + 1]);
                } else {
                    assert(mid[a] == before[a]);
                }
            }
            assert forall|a: int, b: int| 0 <= a < mid.len() && 0 <= b < mid.len() && a != b implies (#[trigger] mid[a]).0
                != (#[trigger] mid[b]).0 by {
                if key_index(before, key) is Some {
                    let i = key_index(before, key)->Some_0;
                    let ia = if a < i { a } else { a + 1 };
                    let ib = if b < i { b } else { b + 1 };
                    assert(mid[a] == before[ia] && mid[b] == before[ib]);
                } else if mid.len() < before.len() {
                    assert(mid[a] == before[a + 1] && mid[b] == before[b + 1]);
                } else {
                    assert(mid[a] == before[a] && mid[b] == before[b]);
                }
            }
        }
        self.entries.push((key, value));
        proof {
            assert forall|a: int, b: int|
                0 <= a < self.spec_loading().len() && 0 <= b < self.spec_loading().len() && a != b implies #[trigger] self.spec_loading()[a]
                    != #[trigger] self.spec_loading()[b] by {
                assert(self.loading@[a] != self.loading@[b]);
            }
            assert forall|a: int, b: int|
                0 <= a < self.entries@.len() && 0 <= b < self.entries@.len() && a != b implies (
                #[trigger] self.entries@[a]).0 != (#[trigger] self.entries@[b]).0 by {
                if a < mid.len() && b < mid.len() {
                    assert(self.entries@[a] == mid[a] && self.entries@[b] == mid[b]);
                } else if a < mid.len() {
                    assert(self.entries@[a] == mid[a]);
                } else if b < mid.len() {
                    assert(self.entries@[b] == mid[b]);
                }
            }
        }
    }
}

} // verus!
