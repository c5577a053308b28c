//! A fixed array of tile slots kept in device memory, filled by priority as
//! the viewpoint moves.

use crate::node::VNode;
use vstd::prelude::*;

verus! {

/// How much a node is needed for the current frame, as the bit pattern of a
/// non-negative 32-bit float: on such floats the order of the bit patterns
/// is the order of the values.
#[derive(Clone, Copy, PartialEq, Eq, Structural, PartialOrd, Ord, Debug, Hash)]
pub struct Priority(pub u32);

impl Priority {
    /// The priority from which a node is needed: the bits of 1.0.
    pub fn cutoff() -> (r: Priority)
        ensures
            r.0 == 0x3f80_0000,
    {
        Priority(0x3f80_0000)
    }

    /// Whether the node is needed for this frame.
    pub fn is_needed(&self) -> (r: bool)
        ensures
            r == (self.0 >= 0x3f80_0000),
    {
        self.0 >= Priority::cutoff().0
    }
}

/// The node held by a slot, if any.
pub open spec fn slot_node(slot: Option<(VNode, Priority)>) -> Option<VNode> {
    match slot {
        Some((n, _)) => Some(n),
        None => None,
    }
}

/// Some entry of `desired` is for `n`.
pub open spec fn is_desired(desired: Seq<(VNode, Priority)>, n: VNode) -> bool {
    exists|k: int| 0 <= k < desired.len() && (#[trigger] desired[k]).0 == n
}

/// The pair `e` is one of `desired`.
pub open spec fn is_given(desired: Seq<(VNode, Priority)>, e: (VNode, Priority)) -> bool {
    exists|k: int| 0 <= k < desired.len() && desired[k] == e
}

/// No node is held by two slots.
pub open spec fn distinct_nodes(slots: Seq<Option<(VNode, Priority)>>) -> bool {
    forall|s: int, t: int|
        0 <= s < slots.len() && 0 <= t < slots.len() && s != t && (#[trigger] slots[s]) is Some && (
        #[trigger] slots[t]) is Some ==> slots[s]->Some_0.0 != slots[t]->Some_0.0
}

/// Some slot holds `n`.
pub open spec fn is_resident(slots: Seq<Option<(VNode, Priority)>>, n: VNode) -> bool {
    exists|s: int| 0 <= s < slots.len() && #[trigger] slot_node(slots[s]) == Some(n)
}

/// The tile slots of one layer.
pub struct TileCache {
    slots: Vec<Option<(VNode, Priority)>>,
}

impl View for TileCache {
    type V = Seq<Option<(VNode, Priority)>>;

    closed spec fn view(&self) -> Seq<Option<(VNode, Priority)>> {
        self.slots@
    }
}

impl TileCache {
    /// A cache of `capacity` empty slots.
    pub fn new(capacity: usize) -> (r: TileCache)
        ensures
            r@ == Seq::new(capacity as nat, |i: int| None::<(VNode, Priority)>),
    {
        let mut slots: Vec<Option<(VNode, Priority)>> = Vec::new();
        for i in 0..capacity
            invariant
                slots@ == Seq::new(i as nat, |j: int| None::<(VNode, Priority)>),
        {
            slots.push(None);
            assert(slots@ =~= Seq::new((i + 1) as nat, |j: int| None::<(VNode, Priority)>));
        }
        TileCache { slots }
    }

    /// Number of slots.
    pub fn capacity(&self) -> (r: usize)
        ensures
            r == self@.len(),
    {
        self.slots.len()
    }

    /// What the slot holds.
    pub fn slot(&self, s: usize) -> (r: Option<(VNode, Priority)>)
        requires
            s < self@.len(),
        ensures
            r == self@[s as int],
    {
        self.slots[s]
    }

    /// The slot that holds `node`, if one does.
    pub fn lookup_slot(&self, node: VNode) -> (r: Option<usize>)
        ensures
            r matches Some(s) ==> s < self@.len() && slot_node(self@[s as int]) == Some(node),
            r is None ==> !is_resident(self@, node),
    {
        for s in 0..self.slots.len()
            invariant
                forall|t: int| 0 <= t < s ==> #[trigger] slot_node(self@[t]) != Some(node),
        {
            match self.slots[s] {
                Some((n, _)) => {
                    if n == node {
                        return Some(s);
                    }
                },
                None => {},
            }
        }
        None
    }

    /// The first empty slot, if any.
    fn empty_slot(&self) -> (r: Option<usize>)
        ensures
            r matches Some(s) ==> s < self@.len() && self@[s as int] is None,
            r is None ==> forall|t: int| 0 <= t < self@.len() ==> (#[trigger] self@[t]) is Some,
    {
        for s in 0..self.slots.len()
            invariant
                forall|t: int| 0 <= t < s ==> (#[trigger] self@[t]) is Some,
        {
            if self.slots[s].is_none() {
                return Some(s);
            }
        }
        None
    }

    /// The first slot of least priority, when all slots are full.
    fn lowest_slot(&self) -> (r: usize)
        requires
            self@.len() > 0,
            forall|t: int| 0 <= t < self@.len() ==> (#[trigger] self@[t]) is Some,
        ensures
            r < self@.len(),
            forall|t: int| 0 <= t < self@.len() ==> (#[trigger] self@[t])->Some_0.1.0 >= self@[r as int]->Some_0.1.0,
    {
        let mut best: usize = 0;
        for s in 1..self.slots.len()
            invariant
                best < self@.len(),
                forall|t: int| 0 <= t < self@.len() ==> (#[trigger] self@[t]) is Some,
                forall|t: int| 0 <= t < s ==> (#[trigger] self@[t])->Some_0.1.0 >= self@[best as int]->Some_0.1.0,
        {
            let p = match self.slots[s] {
                Some((_, p)) => p.0,
                None => 0,
            };
            let q = match self.slots[best] {
                Some((_, q)) => q.0,
                None => 0,
            };
            if p < q {
                best = s;
            }
        }
        best
    }
}


impl TileCache {
    /// Places `(n, p)` if `n` is not resident: into an empty slot, else in
    /// place of the slot of least priority if that priority is strictly
    /// less. A resident `n` takes priority `p`. Returns whether every slot
    /// was full, in which case the placement may have evicted or dropped a node.
    fn place(&mut self, n: VNode, p: Priority, uploads: &mut Vec<usize>) -> (full: bool)
        requires
            distinct_nodes(old(self)@),
        ensures
            final(self)@.len() == old(self)@.len(),
            distinct_nodes(final(self)@),
            forall|s: int|
                0 <= s < final(self)@.len() ==> #[trigger] final(self)@[s] == old(self)@[s] || final(self)@[s] == Some((n, p)),
            forall|s: int|
                0 <= s < final(self)@.len() && old(self)@[s] is Some ==> (#[trigger] final(self)@[s]) is Some,
            forall|s: int|
                0 <= s < final(self)@.len() && slot_node(final(self)@[s]) != slot_node(old(self)@[s])
                    ==> #[trigger] final(uploads)@.contains(s as usize),
            final(uploads)@ == old(uploads)@ || exists|s: usize|
                s < final(self)@.len() && final(uploads)@ == old(uploads)@.push(s) && final(self)@[s as int] == Some(
                    (n, p),
                ),
            !full ==> is_resident(final(self)@, n),
            !full ==> forall|m: VNode| is_resident(old(self)@, m) ==> #[trigger] is_resident(final(self)@, m),
            full ==> forall|s: int| 0 <= s < final(self)@.len() ==> (#[trigger] final(self)@[s]) is Some,
            full ==> forall|s: int| 0 <= s < old(self)@.len() ==> (#[trigger] old(self)@[s]) is Some,
            full ==> !is_resident(old(self)@, n),
            full ==> (final(self)@ == old(self)@ && forall|s: int|
                0 <= s < old(self)@.len() ==> (#[trigger] old(self)@[s])->Some_0.1.0 >= p.0) || exists|s: int|
                0 <= s < old(self)@.len() && old(self)@[s]->Some_0.1.0 < p.0 && (forall|t: int|
                    0 <= t < old(self)@.len() ==> (#[trigger] old(self)@[t])->Some_0.1.0 >= old(self)@[s]->Some_0.1.0)
                    && final(self)@ == old(self)@.update(s, Some((n, p))),
            !full ==> is_resident(old(self)@, n) || exists|s: int| 0 <= s < old(self)@.len() && (#[trigger] old(self)@[s]) is None,
            !full && !is_resident(old(self)@, n) ==> forall|s: int|
                0 <= s < old(self)@.len() && #[trigger] final(self)@[s] != old(self)@[s] ==> old(self)@[s] is None,
    {
        let ghost before = self@;
        let ghost up0 = uploads@;
        match self.lookup_slot(n) {
            Some(s) => {
                self.slots.set(s, Some((n, p)));
                proof {
                    assert(slot_node(self@[s as int]) == Some(n));
                    assert forall|m: VNode| is_resident(before, m) implies #[trigger] is_resident(self@, m) by {
                        let t = choose|t: int| 0 <= t < before.len() && #[trigger] slot_node(before[t]) == Some(m);
                        assert(slot_node(self@[t]) == Some(m));
                    }
                    assert forall|a: int, b: int|
                        0 <= a < self@.len() && 0 <= b < self@.len() && a != b && (#[trigger] self@[a]) is Some && (
                        #[trigger] self@[b]) is Some implies self@[a]->Some_0.0 != self@[b]->Some_0.0 by {
                        assert(slot_node(self@[a]) == slot_node(before[a]));
                        assert(slot_node(self@[b]) == slot_node(before[b]));
                    }
                }
                false
            },
            None => match self.empty_slot() {
                Some(s) => {
                    self.slots.set(s, Some((n, p)));
                    uploads.push(s);
                    proof {
                        assert(uploads@ == up0.push(s) && self@[s as int] == Some((n, p)));
                        assert(slot_node(self@[s as int]) == Some(n));
                        assert forall|m: VNode| is_resident(before, m) implies #[trigger] is_resident(self@, m) by {
                            let t = choose|t: int| 0 <= t < before.len() && #[trigger] slot_node(before[t]) == Some(m);
                            assert(slot_node(self@[t]) == Some(m));
                        }
                        assert forall|t: int|
                            0 <= t < self@.len() && slot_node(self@[t]) != slot_node(before[t]) implies #[trigger] uploads@.contains(t as usize) by {
                            assert(uploads@[uploads@.len() - 1] == t);
                        }
                        assert forall|a: int, b: int|
                            0 <= a < self@.len() && 0 <= b < self@.len() && a != b && (#[trigger] self@[a]) is Some && (
                            #[trigger] self@[b]) is Some implies self@[a]->Some_0.0 != self@[b]->Some_0.0 by {
                            if a == s {
                                assert(slot_node(before[b]) != Some(n));
                            } else if b == s {
                                assert(slot_node(before[a]) != Some(n));
                            }
                        }
                    }
                    false
                },
                None => {
                    if self.slots.len() > 0 {
                        let s = self.lowest_slot();
                        let lowest = match self.slots[s] {
                            Some((_, q)) => q.0,
                            None => 0,
                        };
                        if lowest < p.0 {
                            self.slots.set(s, Some((n, p)));
                            uploads.push(s);
                            proof {
                                assert(uploads@ == up0.push(s) && self@[s as int] == Some((n, p)));
                                assert forall|t: int|
                                    0 <= t < self@.len() && slot_node(self@[t]) != slot_node(before[t]) implies #[trigger] uploads@.contains(t as usize) by {
                                    assert(uploads@[uploads@.len() - 1] == t);
                                }
                                assert forall|a: int, b: int|
                                    0 <= a < self@.len() && 0 <= b < self@.len() && a != b && (#[trigger] self@[a]) is Some && (
                                    #[trigger] self@[b]) is Some implies self@[a]->Some_0.0 != self@[b]->Some_0.0 by {
                                    if a == s {
                                        assert(slot_node(before[b]) != Some(n));
                                    } else if b == s {
                                        assert(slot_node(before[a]) != Some(n));
                                    }
                                }
                                assert(self@ == before.update(s as int, Some((n, p))));
                            }
                        } else {
                            proof {
                                assert forall|t: int| 0 <= t < before.len() implies (#[trigger] before[t])->Some_0.1.0 >= p.0 by {
                                    assert(before[t]->Some_0.1.0 >= before[s as int]->Some_0.1.0);
                                }
                            }
                        }
                    }
                    true
                },
            },
        }
    }
}


/// Every slot is full, with a priority of at least `p`.
pub open spec fn covered(slots: Seq<Option<(VNode, Priority)>>, p: Priority) -> bool {
    forall|s: int| 0 <= s < slots.len() ==> (#[trigger] slots[s]) is Some && slots[s]->Some_0.1.0 >= p.0
}

/// Each node is desired at most once.
pub open spec fn distinct_desired(desired: Seq<(VNode, Priority)>) -> bool {
    forall|a: int, b: int|
        0 <= a < desired.len() && 0 <= b < desired.len() && a != b ==> (#[trigger] desired[a]).0 != (#[trigger] desired[b]).0
}

/// Some entry of `list` from position `from` on is for `m`.
pub open spec fn pending(list: Seq<(VNode, Priority)>, from: int, m: VNode) -> bool {
    exists|j: int| from <= j < list.len() && (#[trigger] list[j]).0 == m
}

impl TileCache {
    /// Brings the slots toward the desired `(node, priority)` pairs. A desired
    /// node that is resident takes its new priority. The others, from the
    /// highest priority down, go into an empty slot, or replace the slot of
    /// least priority when that priority is strictly less, or are left out.
    /// Returns the slots whose node changed, whose tiles must be uploaded.
    pub fn ensure(&mut self, desired: &Vec<(VNode, Priority)>) -> (uploads: Vec<usize>)
        requires
            distinct_nodes(old(self)@),
            distinct_desired(desired@),
        ensures
            final(self)@.len() == old(self)@.len(),
            distinct_nodes(final(self)@),
            forall|s: int|
                0 <= s < final(self)@.len() ==> #[trigger] final(self)@[s] == old(self)@[s] || (final(self)@[s] is Some
                    && is_desired(desired@, final(self)@[s]->Some_0.0)),
            forall|s: int|
                0 <= s < final(self)@.len() && slot_node(final(self)@[s]) != slot_node(old(self)@[s])
                    ==> #[trigger] uploads@.contains(s as usize),
            forall|k: int|
                0 <= k < uploads@.len() ==> #[trigger] uploads@[k] < final(self)@.len() && final(self)@[uploads@[k] as int] is Some
                    && is_desired(desired@, final(self)@[uploads@[k] as int]->Some_0.0),
            forall|s: int|
                0 <= s < final(self)@.len() && (#[trigger] final(self)@[s]) is Some && is_desired(
                    desired@,
                    final(self)@[s]->Some_0.0,
                ) ==> is_given(desired@, final(self)@[s]->Some_0),
            forall|k: int|
                0 <= k < desired@.len() && !is_resident(final(self)@, (#[trigger] desired@[k]).0) ==> covered(
                    final(self)@,
                    desired@[k].1,
                ),
            forall|s: int|
                0 <= s < final(self)@.len() && old(self)@[s] is Some && !is_desired(desired@, old(self)@[s]->Some_0.0)
                    && slot_node(final(self)@[s]) != slot_node(old(self)@[s]) ==> (old(self)@[s]->Some_0.1).0 < (
                #[trigger] final(self)@[s]->Some_0.1).0,
    {
        let ghost start = self@;
        let mut newcomers: Vec<(VNode, Priority)> = Vec::new();
        for k in 0..desired.len()
            invariant
                distinct_desired(desired@),
                distinct_nodes(self@),
                self@.len() == start.len(),
                forall|s: int| 0 <= s < self@.len() ==> #[trigger] slot_node(self@[s]) == slot_node(start[s]),
                forall|s: int|
                    0 <= s < self@.len() ==> #[trigger] self@[s] == start[s] || (self@[s] is Some && is_desired(
                        desired@,
                        self@[s]->Some_0.0,
                    )),
                forall|j: int| 0 <= j < newcomers@.len() ==> is_given(desired@, #[trigger] newcomers@[j]),
                forall|j: int, q: int|
                    0 <= j < newcomers@.len() && k <= q < desired@.len() ==> (#[trigger] newcomers@[j]).0 != (
                    #[trigger] desired@[q]).0,
                forall|j: int| 0 <= j < newcomers@.len() ==> !is_resident(self@, (#[trigger] newcomers@[j]).0),
                forall|a: int, b: int|
                    0 <= a < newcomers@.len() && 0 <= b < newcomers@.len() && a != b ==> (#[trigger] newcomers@[a]).0
                        != (#[trigger] newcomers@[b]).0,
                forall|s: int|
                    0 <= s < self@.len() && (#[trigger] self@[s]) is Some ==> is_given(desired@, self@[s]->Some_0) || forall|q: int|
                        0 <= q < k ==> (#[trigger] desired@[q]).0 != self@[s]->Some_0.0,
                forall|q: int| 0 <= q < k ==> is_resident(self@, (#[trigger] desired@[q]).0) || pending(newcomers@, 0, desired@[q].0),
        {
            let (n, p) = desired[k];
            let ghost before = self@;
            let ghost nc0 = newcomers@;
            match self.lookup_slot(n) {
                Some(s) => {
                    self.slots.set(s, Some((n, p)));
                    proof {
                        assert forall|a: int, b: int|
                            0 <= a < self@.len() && 0 <= b < self@.len() && a != b && (#[trigger] self@[a]) is Some && (
                            #[trigger] self@[b]) is Some implies self@[a]->Some_0.0 != self@[b]->Some_0.0 by {
                            assert(slot_node(self@[a]) == slot_node(before[a]));
                            assert(slot_node(self@[b]) == slot_node(before[b]));
                        }
                        assert forall|m: VNode| #[trigger] is_resident(self@, m) == is_resident(before, m) by {
                            if is_resident(before, m) {
                                let t = choose|t: int| 0 <= t < before.len() && #[trigger] slot_node(before[t]) == Some(m);
                                assert(slot_node(self@[t]) == slot_node(before[t]));
                            }
                            if is_resident(self@, m) {
                                let t = choose|t: int| 0 <= t < self@.len() && #[trigger] slot_node(self@[t]) == Some(m);
                                assert(slot_node(self@[t]) == slot_node(before[t]));
                            }
                        }
                        assert forall|q: int| 0 <= q < k + 1 implies is_resident(self@, (#[trigger] desired@[q]).0)
                            || pending(newcomers@, 0, desired@[q].0) by {
                            if q == k {
                                assert(slot_node(self@[s as int]) == Some(n));
                            }
                        }
                        assert forall|t: int| 0 <= t < self@.len() && (#[trigger] self@[t]) is Some implies is_given(desired@, self@[t]->Some_0)
                            || forall|q: int| 0 <= q < k + 1 ==> (#[trigger] desired@[q]).0 != self@[t]->Some_0.0 by {
                            if t == s {
                                assert(desired@[k as int] == (n, p));
                            } else {
                                assert(self@[t] == before[t]);
                                assert(slot_node(before[t]) != Some(n));
                            }
                        }

                    }
                },
                None => {
                    newcomers.push((n, p));
                    proof {
                        assert(desired@[k as int] == (n, p));
                        assert forall|q: int| 0 <= q < k + 1 implies is_resident(self@, (#[trigger] desired@[q]).0)
                            || pending(newcomers@, 0, desired@[q].0) by {
                            if q == k {
                                assert(newcomers@[newcomers@.len() - 1].0 == n);
                            } else if !is_resident(self@, desired@[q].0) {
                                let j = choose|j: int| 0 <= j < nc0.len() && (#[trigger] nc0[j]).0 == desired@[q].0;
                                assert(newcomers@[j] == nc0[j]);
                            }
                        }
                        assert forall|j: int| 0 <= j < newcomers@.len() implies is_given(desired@, #[trigger] newcomers@[j]) by {
                            if j < nc0.len() {
                                assert(newcomers@[j] == nc0[j]);
                            } else {
                                assert(desired@[k as int] == newcomers@[j]);
                            }
                        }
                        assert forall|j: int, q: int|
                            0 <= j < newcomers@.len() && k + 1 <= q < desired@.len() implies (#[trigger] newcomers@[j]).0 != (
                            #[trigger] desired@[q]).0 by {
                            if j < nc0.len() {
                                assert(newcomers@[j] == nc0[j]);
                            } else {
                                assert(desired@[k as int].0 != desired@[q].0);
                            }
                        }
                        assert forall|j: int| 0 <= j < newcomers@.len() implies !is_resident(self@, (#[trigger] newcomers@[j]).0) by {
                            if j < nc0.len() {
                                assert(newcomers@[j] == nc0[j]);
                            }
                        }
                        assert forall|a: int, b: int|
                            0 <= a < newcomers@.len() && 0 <= b < newcomers@.len() && a != b implies (#[trigger] newcomers@[a]).0
                                != (#[trigger] newcomers@[b]).0 by {
                            if a < nc0.len() && b < nc0.len() {
                                assert(newcomers@[a] == nc0[a] && newcomers@[b] == nc0[b]);
                            } else if a < nc0.len() {
                                assert(newcomers@[a] == nc0[a]);
                                assert(nc0[a].0 != desired@[k as int].0);
                            } else if b < nc0.len() {
                                assert(newcomers@[b] == nc0[b]);
                                assert(nc0[b].0 != desired@[k as int].0);
                            }
                        }
                        assert forall|t: int| 0 <= t < self@.len() && (#[trigger] self@[t]) is Some implies is_given(desired@, self@[t]->Some_0)
                            || forall|q: int| 0 <= q < k + 1 ==> (#[trigger] desired@[q]).0 != self@[t]->Some_0.0 by {
                            assert(slot_node(self@[t]) != Some(n));
                        }
                    }
                },
            }
        }
        proof {
            assert forall|t: int|
                0 <= t < self@.len() && (#[trigger] self@[t]) is Some && is_desired(desired@, self@[t]->Some_0.0) implies is_given(
                desired@,
                self@[t]->Some_0,
            ) by {
                let q = choose|q: int| 0 <= q < desired@.len() && (#[trigger] desired@[q]).0 == self@[t]->Some_0.0;
                assert(desired@[q].0 == self@[t]->Some_0.0);
            }
            assert forall|j: int| 0 <= j < newcomers@.len() implies is_desired(desired@, (#[trigger] newcomers@[j]).0)
                && is_given(desired@, newcomers@[j]) by {
                assert(is_given(desired@, newcomers@[j]));
                let q = choose|q: int| 0 <= q < desired@.len() && desired@[q] == newcomers@[j];
                assert(desired@[q].0 == newcomers@[j].0);
            }
            assert forall|t: int|
                0 <= t < self@.len() && start[t] is Some implies (#[trigger] self@[t]) is Some by {
                assert(slot_node(self@[t]) == slot_node(start[t]));
            }
        }
        let mut uploads: Vec<usize> = Vec::new();
        let count = newcomers.len();
        for i in 0..count
            invariant
                count == newcomers@.len(),
                distinct_desired(desired@),
                distinct_nodes(self@),
                self@.len() == start.len(),
                forall|s: int|
                    0 <= s < self@.len() ==> #[trigger] self@[s] == start[s] || (self@[s] is Some && is_desired(
                        desired@,
                        self@[s]->Some_0.0,
                    )),
                forall|s: int| 0 <= s < self@.len() && start[s] is Some ==> (#[trigger] self@[s]) is Some,
                forall|j: int| 0 <= j < newcomers@.len() ==> is_desired(desired@, (#[trigger] newcomers@[j]).0),
                forall|j: int| 0 <= j < newcomers@.len() ==> is_given(desired@, #[trigger] newcomers@[j]),
                forall|j: int| i <= j < newcomers@.len() ==> !is_resident(self@, (#[trigger] newcomers@[j]).0),
                forall|a: int, b: int|
                    0 <= a < newcomers@.len() && 0 <= b < newcomers@.len() && a != b ==> (#[trigger] newcomers@[a]).0
                        != (#[trigger] newcomers@[b]).0,
                forall|s: int|
                    0 <= s < self@.len() && (#[trigger] self@[s]) is Some && is_desired(desired@, self@[s]->Some_0.0)
                        ==> is_given(desired@, self@[s]->Some_0),
                forall|s: int|
                    0 <= s < self@.len() && slot_node(self@[s]) != slot_node(start[s]) ==> #[trigger] uploads@.contains(s as usize),
                forall|k: int|
                    0 <= k < uploads@.len() ==> #[trigger] uploads@[k] < self@.len() && self@[uploads@[k] as int] is Some
                        && is_desired(desired@, self@[uploads@[k] as int]->Some_0.0),
                forall|q: int|
                    0 <= q < desired@.len() ==> is_resident(self@, (#[trigger] desired@[q]).0) || pending(newcomers@, i as int, desired@[q].0)
                        || covered(self@, desired@[q].1),
                forall|s: int|
                    0 <= s < self@.len() && start[s] is Some && !is_desired(desired@, start[s]->Some_0.0) && slot_node(self@[s])
                        != slot_node(start[s]) ==> (start[s]->Some_0.1).0 < (#[trigger] self@[s]->Some_0.1).0,
        {
            let mut best = i;
            for j in i + 1..count
                invariant
                    count == newcomers@.len(),
                    i <= best < count,
                    forall|t: int| i <= t < j ==> (#[trigger] newcomers@[t]).1.0 <= newcomers@[best as int].1.0,
            {
                if newcomers[j].1.0 > newcomers[best].1.0 {
                    best = j;
                }
            }
            let ghost nc0 = newcomers@;
            let first = newcomers[i];
            let top = newcomers[best];
            newcomers.set(i, top);
            newcomers.set(best, first);
            proof {
                assert forall|j: int| 0 <= j < newcomers@.len() implies #[trigger] newcomers@[j] == nc0[if j == i {
                    best as int
                } else if j == best {
                    i as int
                } else {
                    j
                }] by {}
                assert forall|j: int| 0 <= j < newcomers@.len() implies is_desired(desired@, (#[trigger] newcomers@[j]).0)
                    && is_given(desired@, newcomers@[j]) by {
                    let jj = if j == i { best as int } else if j == best { i as int } else { j };
                    assert(newcomers@[j] == nc0[jj]);
                }
                assert forall|j: int| i <= j < newcomers@.len() implies !is_resident(self@, (#[trigger] newcomers@[j]).0) by {
                    let jj = if j == i { best as int } else if j == best { i as int } else { j };
                    assert(newcomers@[j] == nc0[jj]);
                }
                assert forall|a: int, b: int|
                    0 <= a < newcomers@.len() && 0 <= b < newcomers@.len() && a != b implies (#[trigger] newcomers@[a]).0
                        != (#[trigger] newcomers@[b]).0 by {
                    let aa = if a == i { best as int } else if a == best { i as int } else { a };
                    let bb = if b == i { best as int } else if b == best { i as int } else { b };
                    assert(newcomers@[a] == nc0[aa] && newcomers@[b] == nc0[bb]);
                }
                assert forall|m: VNode| pending(nc0, i as int, m) implies #[trigger] pending(newcomers@, i as int, m) by {
                    let j = choose|j: int| i <= j < nc0.len() && (#[trigger] nc0[j]).0 == m;
                    let jj = if j == i { best as int } else if j == best { i as int } else { j };
                    assert(newcomers@[jj] == nc0[j]);
                }
            }
            let (n, p) = newcomers[i];
            let ghost before = self@;
            let ghost up0 = uploads@;
            proof {
                assert(newcomers@[i as int] == (n, p));
                assert(!is_resident(before, n));
                assert(is_given(desired@, (n, p)));
                assert(is_desired(desired@, n));
            }
            let full = self.place(n, p, &mut uploads);
            proof {
                // residents now: those before, and possibly n
                assert forall|m: VNode| #[trigger] is_resident(self@, m) implies m == n || is_resident(before, m) by {
                    let t = choose|t: int| 0 <= t < self@.len() && #[trigger] slot_node(self@[t]) == Some(m);
                    assert(self@[t] == before[t] || self@[t] == Some((n, p)));
                }
                assert forall|s: int|
                    0 <= s < self@.len() && slot_node(self@[s]) != slot_node(start[s]) implies #[trigger] uploads@.contains(s as usize) by {
                    if slot_node(self@[s]) == slot_node(before[s]) {
                        assert(slot_node(before[s]) != slot_node(start[s]));
                        assert(up0.contains(s as usize));
                        let w = choose|w: int| 0 <= w < up0.len() && up0[w] == s as usize;
                        if uploads@ != up0 {
                            let x = choose|x: usize| x < self@.len() && uploads@ == up0.push(x) && self@[x as int] == Some((n, p));
                            assert(uploads@[w] == up0[w]);
                        }
                        assert(uploads@[w] == s as usize);
                    }
                }
                assert forall|k: int| 0 <= k < uploads@.len() implies #[trigger] uploads@[k] < self@.len() && self@[uploads@[k] as int] is Some
                    && is_desired(desired@, self@[uploads@[k] as int]->Some_0.0) by {
                    if uploads@ != up0 {
                        let x = choose|x: usize| x < self@.len() && uploads@ == up0.push(x) && self@[x as int] == Some((n, p));
                        if k < up0.len() {
                            assert(uploads@[k] == up0[k]);
                            let t = up0[k] as int;
                            assert(up0[k] < before.len() && before[t] is Some && is_desired(desired@, before[t]->Some_0.0));
                            assert(self@[t] == before[t] || self@[t] == Some((n, p)));
                            assert(uploads@[k] as int == t);
                        } else {
                            assert(uploads@[k] == x);
                        }
                    } else {
                        let t = up0[k] as int;
                        assert(up0[k] < before.len() && before[t] is Some && is_desired(desired@, before[t]->Some_0.0));
                        assert(self@[t] == before[t] || self@[t] == Some((n, p)));
                        assert(uploads@[k] as int == t);
                    }
                }
                assert forall|t: int|
                    0 <= t < self@.len() && (#[trigger] self@[t]) is Some && is_desired(desired@, self@[t]->Some_0.0)
                        implies is_given(desired@, self@[t]->Some_0) by {
                    assert(self@[t] == before[t] || self@[t] == Some((n, p)));
                }
                assert forall|t: int| 0 <= t < self@.len() && start[t] is Some implies (#[trigger] self@[t]) is Some by {
                    assert(before[t] is Some);
                }
                assert forall|j: int| i + 1 <= j < newcomers@.len() implies !is_resident(self@, (#[trigger] newcomers@[j]).0) by {
                    assert(newcomers@[j].0 != newcomers@[i as int].0);
                    assert(!is_resident(before, newcomers@[j].0));
                }
                // the slots replaced by a stronger priority
                assert forall|s: int|
                    0 <= s < self@.len() && start[s] is Some && !is_desired(desired@, start[s]->Some_0.0) && slot_node(self@[s])
                        != slot_node(start[s]) implies (start[s]->Some_0.1).0 < (#[trigger] self@[s]->Some_0.1).0 by {
                    if self@[s] != before[s] {
                        assert(self@[s] == Some((n, p)));
                        assert(before[s] is Some);
                        if !full {
                            assert(before[s] is None);
                        }
                        if self@ == before {
                        } else {
                            let v = choose|v: int|
                                0 <= v < before.len() && before[v]->Some_0.1.0 < p.0 && (forall|t: int|
                                    0 <= t < before.len() ==> (#[trigger] before[t])->Some_0.1.0 >= before[v]->Some_0.1.0)
                                    && self@ == before.update(v, Some((n, p)));
                            assert(v == s);
                            if slot_node(before[s]) == slot_node(start[s]) {
                                assert(before[s] == start[s]);
                            }
                        }
                    }
                }
                // every desired node is resident, still to come, or outranked by every slot
                assert forall|q: int| 0 <= q < desired@.len() implies is_resident(self@, (#[trigger] desired@[q]).0)
                    || pending(newcomers@, i + 1, desired@[q].0) || covered(self@, desired@[q].1) by {
                    let d = desired@[q];
                    let kk = choose|kk: int| 0 <= kk < desired@.len() && desired@[kk] == (n, p);
                    if d.0 == n {
                        assert(kk == q);
                        if !full {
                        } else if self@ == before {
                            assert forall|t: int| 0 <= t < self@.len() implies (#[trigger] self@[t]) is Some
                                && self@[t]->Some_0.1.0 >= d.1.0 by {
                                assert(before[t] is Some);
                            }
                        } else {
                            let v = choose|v: int|
                                0 <= v < before.len() && before[v]->Some_0.1.0 < p.0 && (forall|t: int|
                                    0 <= t < before.len() ==> (#[trigger] before[t])->Some_0.1.0 >= before[v]->Some_0.1.0)
                                    && self@ == before.update(v, Some((n, p)));
                            assert(slot_node(self@[v]) == Some(n));
                        }
                    } else if is_resident(before, d.0) {
                        let t = choose|t: int| 0 <= t < before.len() && #[trigger] slot_node(before[t]) == Some(d.0);
                        if self@[t] == before[t] {
                            assert(slot_node(self@[t]) == Some(d.0));
                        } else {
                            // d's slot was the one replaced
                            assert(full);
                            assert(self@ != before);
                            let v = choose|v: int|
                                0 <= v < before.len() && before[v]->Some_0.1.0 < p.0 && (forall|u: int|
                                    0 <= u < before.len() ==> (#[trigger] before[u])->Some_0.1.0 >= before[v]->Some_0.1.0)
                                    && self@ == before.update(v, Some((n, p)));
                            assert(v == t);
                            assert(is_given(desired@, before[t]->Some_0));
                            let w = choose|w: int| 0 <= w < desired@.len() && desired@[w] == before[t]->Some_0;
                            assert(desired@[w].0 == d.0);
                            assert(w == q);
                            assert forall|u: int| 0 <= u < self@.len() implies (#[trigger] self@[u]) is Some
                                && self@[u]->Some_0.1.0 >= d.1.0 by {
                                if u != t {
                                    assert(self@[u] == before[u]);
                                    assert(before[u]->Some_0.1.0 >= before[t]->Some_0.1.0);
                                }
                            }
                        }
                    } else if pending(newcomers@, i as int, d.0) {
                        let j = choose|j: int| i <= j < newcomers@.len() && (#[trigger] newcomers@[j]).0 == d.0;
                        assert(j != i);
                        assert(pending(newcomers@, i + 1, d.0));
                    } else {
                        assert(covered(before, d.1));
                        assert(before[0] is Some || before.len() == 0);
                        if !full {
                            if before.len() > 0 {
                                let e = choose|e: int| 0 <= e < before.len() && (#[trigger] before[e]) is None;
                                assert(before[e] is Some);
                            }
                        } else if self@ != before {
                            let v = choose|v: int|
                                0 <= v < before.len() && before[v]->Some_0.1.0 < p.0 && (forall|u: int|
                                    0 <= u < before.len() ==> (#[trigger] before[u])->Some_0.1.0 >= before[v]->Some_0.1.0)
                                    && self@ == before.update(v, Some((n, p)));
                            assert forall|u: int| 0 <= u < self@.len() implies (#[trigger] self@[u]) is Some
                                && self@[u]->Some_0.1.0 >= d.1.0 by {
                                if u != v {
                                    assert(self@[u] == before[u]);
                                } else {
                                    assert(before[u] is Some);
                                }
                            }
                        }
                    }
                }
            }
        }
        proof {
            assert forall|q: int| 0 <= q < desired@.len() && !is_resident(self@, (#[trigger] desired@[q]).0) implies covered(
                self@,
                desired@[q].1,
            ) by {
                if pending(newcomers@, count as int, desired@[q].0) {
                    let j = choose|j: int| count <= j < newcomers@.len() && (#[trigger] newcomers@[j]).0 == desired@[q].0;
                }
            }
        }
        uploads
    }
}

} // verus!
