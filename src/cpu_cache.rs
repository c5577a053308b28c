//! A bounded pool of decoded tiles in main memory. Requests are recorded as
//! the frame is planned, loads are issued once per frame, and a completed
//! load is admitted by priority.

use crate::cache::Priority;
use crate::layer::LayerType;
use crate::node::VNode;
use vstd::prelude::*;

verus! {

/// What is known of a tile held in memory, beside its bytes.
#[derive(Clone, Copy, PartialEq, Eq, Structural, Debug)]
pub struct CpuEntry {
    pub layer: LayerType,
    pub node: VNode,
    pub priority: Priority,
    pub last_used_frame: u64,
}

/// The tile a request or an entry is for.
pub type TileId = (LayerType, VNode);

/// The tiles held in memory, the requests of the current frame and the
/// loads that have been issued.
pub struct CpuTileCache {
    capacity: usize,
    entries: Vec<CpuEntry>,
    tiles: Vec<Vec<u8>>,
    requested: Vec<(TileId, Priority)>,
    loading: Vec<(TileId, Priority)>,
}

/// Index of the entry for `id` in `entries`, if any.
pub open spec fn entry_index(entries: Seq<CpuEntry>, id: TileId) -> Option<int> {
    if exists|i: int| 0 <= i < entries.len() && (entries[i].layer, entries[i].node) == id {
        Some(choose|i: int| 0 <= i < entries.len() && (entries[i].layer, entries[i].node) == id)
    } else {
        None
    }
}

/// No tile is held twice.
pub open spec fn distinct_entries(entries: Seq<CpuEntry>) -> bool {
    forall|i: int, j: int|
        0 <= i < entries.len() && 0 <= j < entries.len() && i != j ==> (#[trigger] entries[i].layer, entries[i].node)
            != (#[trigger] entries[j].layer, entries[j].node)
}

/// The first request for `id` in `list`, if any.
pub open spec fn request_index(list: Seq<(TileId, Priority)>, id: TileId) -> Option<int> {
    if exists|i: int| 0 <= i < list.len() && list[i].0 == id {
        Some(choose|i: int| 0 <= i < list.len() && list[i].0 == id && forall|j: int| 0 <= j < i ==> list[j].0 != id)
    } else {
        None
    }
}

impl CpuTileCache {
    pub closed spec fn spec_capacity(&self) -> nat {
        self.capacity as nat
    }

    pub closed spec fn spec_entries(&self) -> Seq<CpuEntry> {
        self.entries@
    }

    /// The bytes of each entry, by entry position.
    pub closed spec fn spec_tiles(&self) -> Seq<Vec<u8>> {
        self.tiles@
    }

    pub closed spec fn spec_requested(&self) -> Seq<(TileId, Priority)> {
        self.requested@
    }

    pub closed spec fn spec_loading(&self) -> Seq<(TileId, Priority)> {
        self.loading@
    }

    /// At most `capacity` entries, each for a different tile.
    pub open spec fn wf(&self) -> bool {
        &&& self.spec_entries().len() <= self.spec_capacity()
        &&& self.spec_tiles().len() == self.spec_entries().len()
        &&& distinct_entries(self.spec_entries())
    }

    /// An empty pool of `capacity` tiles.
    pub fn new(capacity: usize) -> (r: CpuTileCache)
        ensures
            r.wf(),
            r.spec_capacity() == capacity,
            r.spec_entries().len() == 0,
            r.spec_requested().len() == 0,
            r.spec_loading().len() == 0,
    {
        CpuTileCache {
            capacity,
            entries: Vec::new(),
            tiles: Vec::new(),
            requested: Vec::new(),
            loading: Vec::new(),
        }
    }

    /// Number of tiles held.
    pub fn len(&self) -> (r: usize)
        ensures
            r == self.spec_entries().len(),
    {
        self.entries.len()
    }

    fn find(&self, id: TileId) -> (r: Option<usize>)
        ensures
            r matches Some(i) ==> i < self.spec_entries().len() && (self.spec_entries()[i as int].layer,
                self.spec_entries()[i as int].node) == id,
            r is None ==> entry_index(self.spec_entries(), id) is None,
    {
        for i in 0..self.entries.len()
            invariant
                forall|j: int| 0 <= j < i ==> (#[trigger] self.entries@[j].layer, self.entries@[j].node) != id,
        {
            if self.entries[i].layer == id.0 && self.entries[i].node == id.1 {
                return Some(i);
            }
        }
        None
    }

    /// The bytes of a tile, if it is held.
    pub fn lookup(&self, layer: LayerType, node: VNode) -> (r: Option<&Vec<u8>>)
        requires
            self.wf(),
        ensures
            r matches Some(b) ==> entry_index(self.spec_entries(), (layer, node)) matches Some(i) && *b
                == self.spec_tiles()[i],
            r is None <==> entry_index(self.spec_entries(), (layer, node)) is None,
    {
        match self.find((layer, node)) {
            Some(i) => Some(&self.tiles[i]),
            None => None,
        }
    }
}


impl CpuTileCache {
    /// Records that a tile is wanted with `priority` this frame: a tile held
    /// takes the new priority and is marked used, another is requested.
    pub fn request(&mut self, layer: LayerType, node: VNode, priority: Priority, frame: u64)
        requires
            old(self).wf(),
        ensures
            final(self).wf(),
            final(self).spec_capacity() == old(self).spec_capacity(),
            final(self).spec_tiles() == old(self).spec_tiles(),
            final(self).spec_loading() == old(self).spec_loading(),
            match entry_index(old(self).spec_entries(), (layer, node)) {
                Some(i) => {
                    &&& final(self).spec_entries() == old(self).spec_entries().update(
                        i,
                        CpuEntry { layer, node, priority, last_used_frame: frame },
                    )
                    &&& final(self).spec_requested() == old(self).spec_requested()
                },
                None => {
                    &&& final(self).spec_entries() == old(self).spec_entries()
                    &&& final(self).spec_requested() == old(self).spec_requested().push(((layer, node), priority))
                },
            },
    {
        match self.find((layer, node)) {
            Some(i) => {
                self.entries.set(i, CpuEntry { layer, node, priority, last_used_frame: frame });
                proof {
                    let old_entries = old(self).spec_entries();
                    let j = entry_index(old_entries, (layer, node))->Some_0;
                    assert(j == i as int);
                    assert forall|a: int, b: int|
                        0 <= a < self.entries@.len() && 0 <= b < self.entries@.len() && a != b implies (
                        #[trigger] self.entries@[a].layer, self.entries@[a].node) != (#[trigger] self.entries@[b].layer,
                        self.entries@[b].node) by {
                        assert((self.entries@[a].layer, self.entries@[a].node) == (old_entries[a].layer, old_entries[a].node));
                        assert((self.entries@[b].layer, self.entries@[b].node) == (old_entries[b].layer, old_entries[b].node));
                    }
                }
            },
            None => {
                self.requested.push(((layer, node), priority));
            },
        }
    }

    /// Issues the loads of this frame's requests and forgets the requests.
    pub fn tick(&mut self) -> (r: Vec<TileId>)
        requires
            old(self).wf(),
        ensures
            final(self).wf(),
            final(self).spec_capacity() == old(self).spec_capacity(),
            final(self).spec_entries() == old(self).spec_entries(),
            final(self).spec_tiles() == old(self).spec_tiles(),
            final(self).spec_requested().len() == 0,
            final(self).spec_loading() == old(self).spec_loading() + old(self).spec_requested(),
            r@ == old(self).spec_requested().map_values(|q: (TileId, Priority)| q.0),
    {
        let mut issued: Vec<TileId> = Vec::new();
        let ghost loading0 = self.loading@;
        let n = self.requested.len();
        for i in 0..n
            invariant
                n == self.requested@.len(),
                self.requested@ == old(self).requested@,
                self.entries@ == old(self).entries@,
                self.tiles@ == old(self).tiles@,
                self.capacity == old(self).capacity,
                old(self).wf(),
                self.loading@ == loading0 + self.requested@.subrange(0, i as int),
                issued@ == self.requested@.subrange(0, i as int).map_values(|q: (TileId, Priority)| q.0),
        {
            let q = self.requested[i];
            self.loading.push(q);
            issued.push(q.0);
            assert(self.loading@ =~= loading0 + self.requested@.subrange(0, i + 1));
            assert(issued@ =~= self.requested@.subrange(0, i + 1).map_values(|q: (TileId, Priority)| q.0));
        }
        assert(self.requested@.subrange(0, self.requested@.len() as int) =~= self.requested@);
        self.requested = Vec::new();
        issued
    }

    fn lowest(&self) -> (r: usize)
        requires
            self.entries@.len() > 0,
        ensures
            r < self.entries@.len(),
            forall|j: int| 0 <= j < self.entries@.len() ==> (#[trigger] self.entries@[j]).priority.0 >= self.entries@[r as int].priority.0,
    {
        let mut best: usize = 0;
        for j in 1..self.entries.len()
            invariant
                best < self.entries@.len(),
                forall|t: int| 0 <= t < j ==> (#[trigger] self.entries@[t]).priority.0 >= self.entries@[best as int].priority.0,
        {
            if self.entries[j].priority.0 < self.entries[best].priority.0 {
                best = j;
            }
        }
        best
    }
}


/// Entry `m` has the least priority of `entries`.
pub open spec fn is_lowest(entries: Seq<CpuEntry>, m: int) -> bool {
    &&& 0 <= m < entries.len()
    &&& forall|j: int| 0 <= j < entries.len() ==> (#[trigger] entries[j]).priority.0 >= entries[m].priority.0
}

/// How a completed load of `e` with `bytes` changes the entries: a tile
/// held is refreshed; below capacity the tile is added; at capacity it
/// replaces the entry of least priority if that priority is strictly less,
/// and is dropped otherwise. `r` says whether the tile is held after.
pub open spec fn admitted(
    before: (Seq<CpuEntry>, Seq<Vec<u8>>),
    after: (Seq<CpuEntry>, Seq<Vec<u8>>),
    capacity: nat,
    e: CpuEntry,
    bytes: Vec<u8>,
    r: bool,
) -> bool {
    let (old_e, old_t) = before;
    let (new_e, new_t) = after;
    match entry_index(old_e, (e.layer, e.node)) {
        Some(i) => r && new_e == old_e.update(i, e) && new_t == old_t.update(i, bytes),
        None => if old_e.len() < capacity {
            r && new_e == old_e.push(e) && new_t == old_t.push(bytes)
        } else if exists|m: int| 0 <= m < old_e.len() && old_e[m].priority.0 < e.priority.0 {
            r && exists|m: int|
                is_lowest(old_e, m) && new_e == old_e.update(m, e) && new_t == old_t.update(m, bytes)
        } else {
            !r && new_e == old_e && new_t == old_t
        },
    }
}

impl CpuTileCache {
    /// A load has completed with `bytes`. A tile whose load was not issued
    /// (or was already completed) is discarded; otherwise the load's request
    /// is settled and the tile is admitted by the priority it was requested with.
    pub fn complete(&mut self, layer: LayerType, node: VNode, bytes: Vec<u8>, frame: u64) -> (r: bool)
        requires
            old(self).wf(),
        ensures
            final(self).wf(),
            final(self).spec_capacity() == old(self).spec_capacity(),
            final(self).spec_requested() == old(self).spec_requested(),
            (forall|k: int| 0 <= k < old(self).spec_loading().len() ==> (#[trigger] old(self).spec_loading()[k]).0 != (layer, node))
                ==> !r && final(self).spec_entries() == old(self).spec_entries() && final(self).spec_tiles()
                == old(self).spec_tiles() && final(self).spec_loading() == old(self).spec_loading(),
            (exists|k: int| 0 <= k < old(self).spec_loading().len() && (#[trigger] old(self).spec_loading()[k]).0 == (layer, node))
                ==> exists|k: int|
                0 <= k < old(self).spec_loading().len() && (#[trigger] old(self).spec_loading()[k]).0 == (layer, node)
                    && final(self).spec_loading() == old(self).spec_loading().remove(k) && admitted(
                    (old(self).spec_entries(), old(self).spec_tiles()),
                    (final(self).spec_entries(), final(self).spec_tiles()),
                    old(self).spec_capacity(),
                    CpuEntry { layer, node, priority: old(self).spec_loading()[k].1, last_used_frame: frame },
                    bytes,
                    r,
                ),
            forall|j: int|
                0 <= j < final(self).spec_entries().len() ==> old(self).spec_entries().contains(
                    #[trigger] final(self).spec_entries()[j],
                ) || (final(self).spec_entries()[j].layer, final(self).spec_entries()[j].node) == (layer, node),
    {
        let k = match self.find_loading(layer, node) {
            Some(k) => k,
            None => {
                return false;
            },
        };
        let (_, priority) = self.loading.remove(k);
        let e = CpuEntry { layer, node, priority, last_used_frame: frame };
        self.insert_entry(e, bytes)
    }

    fn find_loading(&self, layer: LayerType, node: VNode) -> (r: Option<usize>)
        ensures
            r matches Some(k) ==> k < self.loading@.len() && self.loading@[k as int].0 == (layer, node),
            r is None ==> forall|k: int| 0 <= k < self.loading@.len() ==> (#[trigger] self.loading@[k]).0 != (layer, node),
    {
        for k in 0..self.loading.len()
            invariant
                forall|j: int| 0 <= j < k ==> (#[trigger] self.loading@[j]).0 != (layer, node),
        {
            let (l, m) = self.loading[k].0;
            if l == layer && m == node {
                return Some(k);
            }
        }
        None
    }

    /// Admits a loaded tile by its entry's priority.
    fn insert_entry(&mut self, e: CpuEntry, bytes: Vec<u8>) -> (r: bool)
        requires
            old(self).wf(),
        ensures
            final(self).wf(),
            final(self).capacity == old(self).capacity,
            final(self).requested == old(self).requested,
            final(self).loading == old(self).loading,
            admitted(
                (old(self).spec_entries(), old(self).spec_tiles()),
                (final(self).spec_entries(), final(self).spec_tiles()),
                old(self).spec_capacity(),
                e,
                bytes,
                r,
            ),
            forall|j: int|
                0 <= j < final(self).spec_entries().len() ==> old(self).spec_entries().contains(
                    #[trigger] final(self).spec_entries()[j],
                ) || (final(self).spec_entries()[j].layer, final(self).spec_entries()[j].node) == (e.layer, e.node),
    {
        let id = (e.layer, e.node);
        let priority = e.priority;
        let ghost old_entries = self.entries@;
        match self.find(id) {
            Some(i) => {
                self.entries.set(i, e);
                self.tiles.set(i, bytes);
                proof {
                    let j = entry_index(old_entries, id)->Some_0;
                    assert(j == i as int);
                    assert forall|a: int, b: int|
                        0 <= a < self.entries@.len() && 0 <= b < self.entries@.len() && a != b implies (
                        #[trigger] self.entries@[a].layer, self.entries@[a].node) != (#[trigger] self.entries@[b].layer,
                        self.entries@[b].node) by {
                        assert((self.entries@[a].layer, self.entries@[a].node) == (old_entries[a].layer, old_entries[a].node));
                        assert((self.entries@[b].layer, self.entries@[b].node) == (old_entries[b].layer, old_entries[b].node));
                    }
                    assert forall|a: int| 0 <= a < self.entries@.len() implies old_entries.contains(#[trigger] self.entries@[a])
                        || (self.entries@[a].layer, self.entries@[a].node) == id by {
                        if a != i {
                            assert(self.entries@[a] == old_entries[a]);
                        }
                    }
                }
                true
            },
            None => {
                if self.entries.len() < self.capacity {
                    self.entries.push(e);
                    self.tiles.push(bytes);
                    proof {
                        assert forall|a: int, b: int|
                            0 <= a < self.entries@.len() && 0 <= b < self.entries@.len() && a != b implies (
                            #[trigger] self.entries@[a].layer, self.entries@[a].node) != (#[trigger] self.entries@[b].layer,
                            self.entries@[b].node) by {
                            if a == old_entries.len() {
                                assert(entry_index(old_entries, id) is None);
                                assert((old_entries[b].layer, old_entries[b].node) != id);
                            } else if b == old_entries.len() {
                                assert((old_entries[a].layer, old_entries[a].node) != id);
                            }
                        }
                        assert forall|a: int| 0 <= a < self.entries@.len() implies old_entries.contains(#[trigger] self.entries@[a])
                            || (self.entries@[a].layer, self.entries@[a].node) == id by {
                            if a < old_entries.len() {
                                assert(self.entries@[a] == old_entries[a]);
                            }
                        }
                    }
                    true
                } else if self.entries.len() > 0 {
                    let m = self.lowest();
                    if self.entries[m].priority.0 < priority.0 {
                        self.entries.set(m, e);
                        self.tiles.set(m, bytes);
                        proof {
                            assert(is_lowest(old_entries, m as int));
                            assert forall|a: int, b: int|
                                0 <= a < self.entries@.len() && 0 <= b < self.entries@.len() && a != b implies (
                                #[trigger] self.entries@[a].layer, self.entries@[a].node) != (#[trigger] self.entries@[b].layer,
                                self.entries@[b].node) by {
                                if a == m {
                                    assert((old_entries[b].layer, old_entries[b].node) != id);
                                } else if b == m {
                                    assert((old_entries[a].layer, old_entries[a].node) != id);
                                }
                            }
                            assert forall|a: int| 0 <= a < self.entries@.len() implies old_entries.contains(#[trigger] self.entries@[a])
                                || (self.entries@[a].layer, self.entries@[a].node) == id by {
                                if a != m {
                                    assert(self.entries@[a] == old_entries[a]);
                                }
                            }
                        }
                        true
                    } else {
                        proof {
                            assert forall|j: int| 0 <= j < old_entries.len() implies !(old_entries[j].priority.0 < priority.0) by {
                                assert(old_entries[j].priority.0 >= old_entries[m as int].priority.0);
                            }
                            assert forall|a: int| 0 <= a < self.entries@.len() implies old_entries.contains(#[trigger] self.entries@[a]) by {
                                assert(self.entries@[a] == old_entries[a]);
                            }
                        }
                        false
                    }
                } else {
                    proof {
                        assert forall|a: int| 0 <= a < self.entries@.len() implies old_entries.contains(#[trigger] self.entries@[a]) by {
                            assert(self.entries@[a] == old_entries[a]);
                        }
                    }
                    false
                }
            },
        }
    }
}

} // verus!
