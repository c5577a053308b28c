//! Addresses of cells on a quadtree laid over the six faces of a cube.

use vstd::prelude::*;

verus! {

/// The deepest level of the quadtree.
pub const MAX_LEVEL: u8 = 22;

/// The packed key of a node: level, face, y and x in one integer.
pub open spec fn pack(level: u64, face: u64, x: u64, y: u64) -> u64 {
    level << 56u64 | face << 53u64 | y << 26u64 | x
}

/// Number of cells along one side of a face at `level`.
pub open spec fn side(level: u8) -> u32 {
    1u32 << level
}

proof fn lemma_pack(level: u64, face: u64, x: u64, y: u64)
    requires
        level <= 22,
        face < 6,
        x < 0x4000000,
        y < 0x4000000,
    ensures
        pack(level, face, x, y) >> 56u64 == level,
        (pack(level, face, x, y) >> 53u64) & 7 == face,
        (pack(level, face, x, y) >> 26u64) & 0x3ffffff == y,
        pack(level, face, x, y) & 0x3ffffff == x,
{
    assert(
        (level << 56u64 | face << 53u64 | y << 26u64 | x) >> 56u64 == level
        && ((level << 56u64 | face << 53u64 | y << 26u64 | x) >> 53u64) & 7 == face
        && ((level << 56u64 | face << 53u64 | y << 26u64 | x) >> 26u64) & 0x3ffffff == y
        && (level << 56u64 | face << 53u64 | y << 26u64 | x) & 0x3ffffff == x
    ) by (bit_vector)
        requires
            level <= 22,
            face < 6,
            x < 0x4000000,
            y < 0x4000000,
    ;
}

proof fn lemma_side_bound(level: u8)
    requires
        level <= 22,
    ensures
        side(level) <= 0x400000,
        side(level) > 0,
{
    assert(1u32 << level <= 0x400000 && 1u32 << level > 0) by (bit_vector)
        requires
            level <= 22,
    ;
}

/// A cell of the quadtree: its level, the cube face it lies on, and its
/// column and row among the `2^level` cells along each side of that face.
#[derive(Clone, Copy, PartialEq, Eq, Structural, PartialOrd, Ord, Hash, Debug)]
pub struct VNode(u64);

impl VNode {
    /// The packed key.
    pub closed spec fn key(self) -> u64 {
        self.0
    }

    pub open spec fn spec_level(&self) -> u8 {
        (self.key() >> 56u64) as u8
    }

    pub open spec fn spec_face(&self) -> u8 {
        ((self.key() >> 53u64) & 7) as u8
    }

    pub open spec fn spec_x(&self) -> u32 {
        (self.key() & 0x3ffffff) as u32
    }

    pub open spec fn spec_y(&self) -> u32 {
        ((self.key() >> 26u64) & 0x3ffffff) as u32
    }

    /// The fields are in range and the key holds nothing else.
    pub open spec fn wf(self) -> bool {
        &&& self.spec_level() <= MAX_LEVEL
        &&& self.spec_face() < 6
        &&& self.spec_x() < side(self.spec_level())
        &&& self.spec_y() < side(self.spec_level())
        &&& self.key() == pack(
            self.spec_level() as u64,
            self.spec_face() as u64,
            self.spec_x() as u64,
            self.spec_y() as u64,
        )
    }

    /// The node with the given fields.
    pub open spec fn has_fields(self, level: u8, face: u8, x: u32, y: u32) -> bool {
        &&& self.spec_level() == level
        &&& self.spec_face() == face
        &&& self.spec_x() == x
        &&& self.spec_y() == y
    }

    /// The node with the given fields, as a value.
    pub closed spec fn from_fields(level: u8, face: u8, x: u32, y: u32) -> VNode {
        VNode(pack(level as u64, face as u64, x as u64, y as u64))
    }

    /// A node made of fields in range is well formed and has those fields.
    pub proof fn lemma_from_fields(level: u8, face: u8, x: u32, y: u32)
        requires
            level <= MAX_LEVEL,
            face < 6,
            x < side(level),
            y < side(level),
        ensures
            VNode::from_fields(level, face, x, y).wf(),
            VNode::from_fields(level, face, x, y).has_fields(level, face, x, y),
    {
        lemma_side_bound(level);
        lemma_pack(level as u64, face as u64, x as u64, y as u64);
    }

    /// Two well-formed nodes are equal exactly when their four fields are.
    pub proof fn lemma_eq(a: VNode, b: VNode)
        requires
            a.wf(),
            b.wf(),
        ensures
            a == b <==> a.has_fields(b.spec_level(), b.spec_face(), b.spec_x(), b.spec_y()),
    {
    }

    /// Well-formed nodes are determined by their fields.
    pub proof fn lemma_from_fields_of(n: VNode)
        requires
            n.wf(),
        ensures
            VNode::from_fields(n.spec_level(), n.spec_face(), n.spec_x(), n.spec_y()) == n,
    {
    }

    /// The node at column `x` and row `y` of `face` at `level`.
    pub fn new(level: u8, face: u8, x: u32, y: u32) -> (r: VNode)
        requires
            level <= MAX_LEVEL,
            face < 6,
            x < side(level),
            y < side(level),
        ensures
            r.wf(),
            r.has_fields(level, face, x, y),
            r == VNode::from_fields(level, face, x, y),
    {
        proof {
            VNode::lemma_from_fields(level, face, x, y);
        }
        VNode((level as u64) << 56u64 | (face as u64) << 53u64 | (y as u64) << 26u64 | (x as u64))
    }

    /// Column of the cell on its face.
    #[verifier::when_used_as_spec(spec_x)]
    pub fn x(&self) -> (r: u32)
        ensures
            r == self.spec_x(),
    {
        (self.0 & 0x3ffffff) as u32
    }

    /// Row of the cell on its face.
    #[verifier::when_used_as_spec(spec_y)]
    pub fn y(&self) -> (r: u32)
        ensures
            r == self.spec_y(),
    {
        ((self.0 >> 26u64) & 0x3ffffff) as u32
    }

    /// Depth in the quadtree; the roots are at level 0.
    #[verifier::when_used_as_spec(spec_level)]
    pub fn level(&self) -> (r: u8)
        ensures
            r == self.spec_level(),
    {
        (self.0 >> 56u64) as u8
    }

    /// The cube face, from 0 to 5.
    #[verifier::when_used_as_spec(spec_face)]
    pub fn face(&self) -> (r: u8)
        ensures
            r == self.spec_face(),
    {
        ((self.0 >> 53u64) & 7) as u8
    }
}


proof fn lemma_half(x: u32, level: u8)
    requires
        1 <= level <= 22,
        x < 1u32 << level,
    ensures
        x / 2 < 1u32 << ((level - 1) as u8),
        x % 2 + 2 * (x / 2) == x,
{
    assert(x / 2 < 1u32 << ((level - 1) as u8)) by (bit_vector)
        requires
            1 <= level <= 22,
            x < 1u32 << level,
    ;
}

proof fn lemma_double(x: u32, level: u8)
    requires
        level < 22,
        x < 1u32 << level,
    ensures
        2 * x + 1 < 1u32 << ((level + 1) as u8),
{
    assert(2 * x + 1 < 1u32 << ((level + 1) as u8)) by (bit_vector)
        requires
            level < 22,
            x < 1u32 << level,
    ;
}

impl VNode {
    /// The parent's cell: one level up, with halved coordinates.
    pub open spec fn spec_parent(self) -> VNode {
        VNode::from_fields(
            (self.spec_level() - 1) as u8,
            self.spec_face(),
            self.spec_x() / 2,
            self.spec_y() / 2,
        )
    }

    /// Which of its parent's four children this node is.
    pub open spec fn spec_child_index(self) -> u8 {
        (self.spec_x() % 2 + 2 * (self.spec_y() % 2)) as u8
    }

    /// The four children, in child index order.
    pub open spec fn spec_children(self) -> Seq<VNode> {
        let (l, f, x, y) = (
            (self.spec_level() + 1) as u8,
            self.spec_face(),
            self.spec_x(),
            self.spec_y(),
        );
        seq![
            VNode::from_fields(l, f, (2 * x) as u32, (2 * y) as u32),
            VNode::from_fields(l, f, (2 * x + 1) as u32, (2 * y) as u32),
            VNode::from_fields(l, f, (2 * x) as u32, (2 * y + 1) as u32),
            VNode::from_fields(l, f, (2 * x + 1) as u32, (2 * y + 1) as u32),
        ]
    }

    /// The root of each face, in face order.
    pub open spec fn spec_roots() -> Seq<VNode> {
        Seq::new(6, |i: int| VNode::from_fields(0, i as u8, 0, 0))
    }

    /// The parent of a node below the roots is a node, with halved coordinates.
    pub proof fn lemma_parent_wf(self)
        requires
            self.wf(),
            self.spec_level() >= 1,
        ensures
            self.spec_parent().wf(),
            self.spec_parent().has_fields(
                (self.spec_level() - 1) as u8,
                self.spec_face(),
                self.spec_x() / 2,
                self.spec_y() / 2,
            ),
            self.spec_child_index() < 4,
    {
        lemma_half(self.spec_x(), self.spec_level());
        lemma_half(self.spec_y(), self.spec_level());
        VNode::lemma_from_fields(
            (self.spec_level() - 1) as u8,
            self.spec_face(),
            self.spec_x() / 2,
            self.spec_y() / 2,
        );
    }

    /// The children of a node above the last level are nodes, each with this
    /// node as parent and its position as child index.
    pub proof fn lemma_children_wf(self)
        requires
            self.wf(),
            self.spec_level() < MAX_LEVEL,
        ensures
            forall|i: int|
                0 <= i < 4 ==> {
                    let c = #[trigger] self.spec_children()[i];
                    &&& c.wf()
                    &&& c.spec_level() == self.spec_level() + 1
                    &&& c.spec_face() == self.spec_face()
                    &&& c.spec_x() == 2 * self.spec_x() + i % 2
                    &&& c.spec_y() == 2 * self.spec_y() + i / 2
                    &&& c.spec_parent() == self
                    &&& c.spec_child_index() == i
                },
    {
        let (l, f, x, y) = (self.spec_level(), self.spec_face(), self.spec_x(), self.spec_y());
        lemma_double(x, l);
        lemma_double(y, l);
        VNode::lemma_from_fields((l + 1) as u8, f, (2 * x) as u32, (2 * y) as u32);
        VNode::lemma_from_fields((l + 1) as u8, f, (2 * x + 1) as u32, (2 * y) as u32);
        VNode::lemma_from_fields((l + 1) as u8, f, (2 * x) as u32, (2 * y + 1) as u32);
        VNode::lemma_from_fields((l + 1) as u8, f, (2 * x + 1) as u32, (2 * y + 1) as u32);
        VNode::lemma_from_fields_of(self);
        assert forall|i: int| 0 <= i < 4 implies #[trigger] self.spec_children()[i].spec_parent()
            == self by {
            let c = self.spec_children()[i];
            c.lemma_parent_wf();
        }
    }

    /// Every node below the roots is the child of its parent at its child index.
    pub proof fn lemma_parent_children(n: VNode)
        requires
            n.wf(),
            n.spec_level() >= 1,
        ensures
            n.spec_child_index() < 4,
            n.spec_parent().spec_children()[n.spec_child_index() as int] == n,
    {
        n.lemma_parent_wf();
        let p = n.spec_parent();
        p.lemma_children_wf();
        let c = p.spec_children()[n.spec_child_index() as int];
        VNode::lemma_eq(c, n);
    }

    /// The level-0 node of each face, in face order.
    pub fn roots() -> (r: [VNode; 6])
        ensures
            r@ == VNode::spec_roots(),
            forall|i: int| 0 <= i < 6 ==> (#[trigger] r@[i]).wf() && r@[i].has_fields(0, i as u8, 0, 0),
    {
        proof {
            lemma_side_bound(0);
            assert forall|i: int| 0 <= i < 6 implies (#[trigger] VNode::spec_roots()[i]).wf()
                && VNode::spec_roots()[i].has_fields(0, i as u8, 0, 0) by {
                VNode::lemma_from_fields(0, i as u8, 0, 0);
            }
        }
        let r = [
            VNode::new(0, 0, 0, 0),
            VNode::new(0, 1, 0, 0),
            VNode::new(0, 2, 0, 0),
            VNode::new(0, 3, 0, 0),
            VNode::new(0, 4, 0, 0),
            VNode::new(0, 5, 0, 0),
        ];
        assert(r@ =~= VNode::spec_roots());
        r
    }

    /// The parent and this node's child index in it, or `None` at a root.
    pub fn parent(&self) -> (r: Option<(VNode, u8)>)
        requires
            self.wf(),
        ensures
            r is None <==> self.spec_level() == 0,
            r matches Some((p, i)) ==> {
                &&& p.wf()
                &&& p == self.spec_parent()
                &&& p.has_fields(
                    (self.spec_level() - 1) as u8,
                    self.spec_face(),
                    self.spec_x() / 2,
                    self.spec_y() / 2,
                )
                &&& i == self.spec_child_index()
                &&& i < 4
            },
    {
        if self.level() == 0 {
            return None;
        }
        proof {
            self.lemma_parent_wf();
        }
        let child_index = ((self.x() % 2) + (self.y() % 2) * 2) as u8;
        Some((VNode::new(self.level() - 1, self.face(), self.x() / 2, self.y() / 2), child_index))
    }

    /// The four children, in child index order.
    pub fn children(&self) -> (r: [VNode; 4])
        requires
            self.wf(),
            self.spec_level() < MAX_LEVEL,
        ensures
            r@ == self.spec_children(),
            forall|i: int|
                0 <= i < 4 ==> (#[trigger] r@[i]).wf() && r@[i].has_fields(
                    (self.spec_level() + 1) as u8,
                    self.spec_face(),
                    (2 * self.spec_x() + i % 2) as u32,
                    (2 * self.spec_y() + i / 2) as u32,
                ) && r@[i].spec_parent() == *self && r@[i].spec_child_index() == i,
    {
        proof {
            self.lemma_children_wf();
            lemma_double(self.spec_x(), self.spec_level());
            lemma_double(self.spec_y(), self.spec_level());
        }
        let (l, f, x, y) = (self.level() + 1, self.face(), self.x(), self.y());
        let r = [
            VNode::new(l, f, x * 2, y * 2),
            VNode::new(l, f, x * 2 + 1, y * 2),
            VNode::new(l, f, x * 2, y * 2 + 1),
            VNode::new(l, f, x * 2 + 1, y * 2 + 1),
        ];
        assert(r@ =~= self.spec_children());
        r
    }
}


/// The low `g` bits of `v`: the position of a cell within its ancestor `g`
/// levels up, counted in cells of the finer level.
pub open spec fn low_bits(v: u32, g: u32) -> u32 {
    v & ((1u32 << g) - 1) as u32
}

proof fn lemma_ancestor_step(x: u32, g: u32, level: u8)
    requires
        g < level <= 22,
        x >> g < 1u32 << ((level - g) as u8),
    ensures
        (x >> g) / 2 == x >> (g + 1) as u32,
        (x >> g) / 2 < 1u32 << ((level - g - 1) as u8),
        low_bits(x, g) + ((x >> g) & 1) * (1u32 << g) == low_bits(x, (g + 1) as u32),
{
    assert((x >> g) / 2 == x >> (g + 1) as u32) by (bit_vector)
        requires
            g < 22,
    ;
    assert((x >> g) / 2 < 1u32 << ((level - g - 1) as u8)) by (bit_vector)
        requires
            g < level <= 22,
            x >> g < 1u32 << ((level - g) as u8),
    ;
    assert((x & ((1u32 << g) - 1) as u32) + ((x >> g) & 1) * (1u32 << g) == x & ((1u32 << (g
        + 1) as u32) - 1) as u32) by (bit_vector)
        requires
            g < 22,
    ;
}

proof fn lemma_no_shift(v: u32)
    ensures
        v >> 0u32 == v,
        low_bits(v, 0) == 0,
{
    assert(v >> 0u32 == v) by (bit_vector);
    assert(v & ((1u32 << 0u32) - 1) as u32 == 0) by (bit_vector);
}

impl VNode {
    /// The ancestor `g` levels up.
    pub open spec fn spec_ancestor(self, g: nat) -> VNode {
        VNode::from_fields(
            (self.spec_level() - g) as u8,
            self.spec_face(),
            self.spec_x() >> g as u32,
            self.spec_y() >> g as u32,
        )
    }

    /// The lowest ancestor (this node included) that `visit` accepts, with the
    /// number of levels climbed and the position of this node within it in
    /// units of this node's cells; `None` when `visit` accepts none up to the root.
    pub fn find_ancestor<F: Fn(VNode) -> bool>(&self, visit: F) -> (r: Option<(VNode, usize, (u32, u32))>)
        requires
            self.wf(),
            forall|n: VNode| n.wf() ==> #[trigger] visit.requires((n,)),
        ensures
            r matches Some((a, g, off)) ==> {
                &&& g <= self.spec_level()
                &&& a == self.spec_ancestor(g as nat)
                &&& a.wf()
                &&& a.has_fields(
                    (self.spec_level() - g) as u8,
                    self.spec_face(),
                    self.spec_x() >> g as u32,
                    self.spec_y() >> g as u32,
                )
                &&& off == (low_bits(self.spec_x(), g as u32), low_bits(self.spec_y(), g as u32))
                &&& visit.ensures((a,), true)
                &&& forall|k: nat| k < g ==> visit.ensures((#[trigger] self.spec_ancestor(k),), false)
            },
            r is None ==> forall|k: nat|
                k <= self.spec_level() ==> visit.ensures((#[trigger] self.spec_ancestor(k),), false),
    {
        let mut node = *self;
        let mut generations: usize = 0;
        let mut offset: (u32, u32) = (0, 0);
        proof {
            VNode::lemma_from_fields_of(*self);
            lemma_no_shift(self.spec_x());
            lemma_no_shift(self.spec_y());
        }
        loop
            invariant
                self.wf(),
                forall|n: VNode| n.wf() ==> #[trigger] visit.requires((n,)),
                generations <= self.spec_level(),
                node.wf(),
                node == self.spec_ancestor(generations as nat),
                node.has_fields(
                    (self.spec_level() - generations) as u8,
                    self.spec_face(),
                    self.spec_x() >> generations as u32,
                    self.spec_y() >> generations as u32,
                ),
                offset == (
                    low_bits(self.spec_x(), generations as u32),
                    low_bits(self.spec_y(), generations as u32),
                ),
                forall|k: nat| k < generations ==> visit.ensures((#[trigger] self.spec_ancestor(k),), false),
            decreases node.spec_level(),
        {
            if visit(node) {
                return Some((node, generations, offset));
            }
            if node.level() == 0 {
                assert forall|k: nat| k <= self.spec_level() implies visit.ensures(
                    (#[trigger] self.spec_ancestor(k),),
                    false,
                ) by {
                    if k == generations {
                    }
                }
                return None;
            }
            proof {
                let g = generations as u32;
                lemma_ancestor_step(self.spec_x(), g, self.spec_level());
                lemma_ancestor_step(self.spec_y(), g, self.spec_level());
                VNode::lemma_from_fields(
                    (self.spec_level() - generations - 1) as u8,
                    self.spec_face(),
                    self.spec_x() >> (g + 1) as u32,
                    self.spec_y() >> (g + 1) as u32,
                );
            }
            offset = (
                offset.0 + (node.x() & 1) * (1u32 << generations as u32),
                offset.1 + (node.y() & 1) * (1u32 << generations as u32),
            );
            generations = generations + 1;
            node = VNode::new(node.level() - 1, node.face(), node.x() / 2, node.y() / 2);
        }
    }
}


impl VNode {
    /// Every node of `s` whose level is below the last level and that `visit`
    /// accepts whenever it is called on it has all its children in `s`.
    pub open spec fn expanded<F: Fn(VNode) -> bool>(s: Seq<VNode>, visit: F, below: u8) -> bool {
        forall|j: int, c: VNode|
            0 <= j < s.len() && s[j].spec_level() < below && (forall|b: bool|
                visit.ensures((s[j],), b) ==> b) && #[trigger] s[j].spec_children().contains(c)
                ==> s.contains(c)
    }

    /// Every node of `s` past the roots was reached from its parent, which
    /// stands earlier in `s` and was accepted by `visit`.
    pub open spec fn reached<F: Fn(VNode) -> bool>(s: Seq<VNode>, visit: F) -> bool {
        forall|i: int|
            6 <= i < s.len() ==> #[trigger] s[i].spec_level() >= 1 && exists|j: int|
                0 <= j < i && s[j] == s[i].spec_parent() && visit.ensures((s[j],), true)
    }

    /// Visits the six roots in face order, then, level by level, the children
    /// (in child index order) of each node that `visit` accepted, in the order
    /// in which those nodes were visited. Nodes of the last level are not
    /// expanded. Returns the visited nodes in the order of the visits.
    pub fn breadth_first<F: Fn(VNode) -> bool>(visit: F) -> (r: Vec<VNode>)
        requires
            forall|n: VNode| n.wf() ==> #[trigger] visit.requires((n,)),
        ensures
            r@.len() >= 6,
            r@.subrange(0, 6) == VNode::spec_roots(),
            forall|i: int| 0 <= i < r@.len() ==> (#[trigger] r@[i]).wf(),
            forall|i: int, j: int|
                0 <= i < j < r@.len() ==> r@[i].spec_level() <= r@[j].spec_level(),
            VNode::reached(r@, visit),
            VNode::expanded(r@, visit, MAX_LEVEL),
            forall|i: int, j: int| 0 <= i < j < r@.len() ==> #[trigger] r@[i] != #[trigger] r@[j],
            forall|i: int, j: int, a: int, b: int|
                #![trigger r@[a], r@[b], r@[i], r@[j]]
                6 <= i < j < r@.len() && 0 <= a < r@.len() && 0 <= b < r@.len() && r@[a]
                    == r@[i].spec_parent() && r@[b] == r@[j].spec_parent() ==> a < b || (a == b
                    && r@[i].spec_child_index() < r@[j].spec_child_index()),
    {
        let roots = VNode::roots();
        let mut visited: Vec<VNode> = Vec::new();
        let mut current: Vec<VNode> = Vec::new();
        let ghost mut acc: Seq<bool> = Seq::empty();
        let ghost mut par: Seq<int> = Seq::empty();
        let ghost mut cur_pos: Seq<int> = Seq::empty();
        for i in 0..6
            invariant
                forall|n: VNode| n.wf() ==> #[trigger] visit.requires((n,)),
                roots@ == VNode::spec_roots(),
                forall|i: int| 0 <= i < 6 ==> (#[trigger] roots@[i]).wf() && roots@[i].has_fields(0, i as u8, 0, 0),
                visited@ == roots@.subrange(0, i as int),
                acc.len() == visited@.len(),
                par.len() == visited@.len(),
                forall|j: int| 0 <= j < visited@.len() ==> visit.ensures((visited@[j],), #[trigger] acc[j]),
                forall|k: int| 0 <= k < current@.len() ==> {
                    &&& (#[trigger] current@[k]).wf()
                    &&& current@[k].spec_level() == 0
                    &&& visited@.contains(current@[k])
                    &&& visit.ensures((current@[k],), true)
                },
                forall|j: int| 0 <= j < visited@.len() && #[trigger] acc[j] ==> current@.contains(visited@[j]),
                cur_pos.len() == current@.len(),
                forall|q: int|
                    0 <= q < cur_pos.len() ==> 0 <= #[trigger] cur_pos[q] < visited@.len() && visited@[cur_pos[q]]
                        == current@[q],
                forall|q1: int, q2: int| 0 <= q1 < q2 < cur_pos.len() ==> #[trigger] cur_pos[q1] < #[trigger] cur_pos[q2],
        {
            let n = roots[i];
            let keep = visit(n);
            let ghost oc = current@;
            let ghost ov = visited@;
            visited.push(n);
            proof {
                acc = acc.push(keep);
                par = par.push(0);
                assert(visited@ =~= roots@.subrange(0, i + 1));
                assert(visited@[i as int] == n);
                assert forall|q: int| 0 <= q < cur_pos.len() implies visited@[#[trigger] cur_pos[q]] == current@[q] by {
                    assert(visited@[cur_pos[q]] == ov[cur_pos[q]]);
                }
            }
            if keep {
                current.push(n);
                proof {
                    cur_pos = cur_pos.push(i as int);
                    assert(current@.last() == n);
                }
            }
            proof {
                assert forall|j: int| 0 <= j < visited@.len() && #[trigger] acc[j] implies current@.contains(visited@[j]) by {
                    if j < i {
                        let k = choose|k: int| 0 <= k < oc.len() && oc[k] == visited@[j];
                        assert(current@[k] == visited@[j]);
                    } else {
                        assert(current@[current@.len() - 1] == visited@[j]);
                    }
                }
                assert forall|k: int| 0 <= k < current@.len() implies visited@.contains(#[trigger] current@[k]) by {
                    if k < current@.len() - 1 || !keep {
                        let j = choose|j: int| 0 <= j < visited@.len() - 1 && visited@[j] == current@[k];
                        assert(visited@[j] == current@[k]);
                    } else {
                        assert(visited@[i as int] == current@[k]);
                    }
                }
            }
        }
        assert(visited@ =~= roots@);
        assert(VNode::reached(visited@, visit));
        assert forall|i: int, j: int| 0 <= i < j < visited@.len() implies #[trigger] visited@[i] != #[trigger] visited@[j] by {
            assert(visited@[i].spec_face() == i && visited@[j].spec_face() == j);
        }
        let mut level: u8 = 0;
        while level < MAX_LEVEL
            invariant
                forall|n: VNode| n.wf() ==> #[trigger] visit.requires((n,)),
                level <= MAX_LEVEL,
                visited@.len() >= 6,
                visited@.subrange(0, 6) == VNode::spec_roots(),
                forall|i: int| 0 <= i < visited@.len() ==> (#[trigger] visited@[i]).wf(),
                forall|i: int| 0 <= i < visited@.len() ==> (#[trigger] visited@[i]).spec_level() <= level,
                forall|i: int, j: int|
                    0 <= i < j < visited@.len() ==> visited@[i].spec_level() <= visited@[j].spec_level(),
                VNode::reached(visited@, visit),
                VNode::expanded(visited@, visit, level),
                acc.len() == visited@.len(),
                forall|j: int| 0 <= j < visited@.len() ==> visit.ensures((visited@[j],), #[trigger] acc[j]),
                forall|k: int| 0 <= k < current@.len() ==> {
                    &&& (#[trigger] current@[k]).wf()
                    &&& current@[k].spec_level() == level
                    &&& visited@.contains(current@[k])
                    &&& visit.ensures((current@[k],), true)
                },
                forall|j: int|
                    0 <= j < visited@.len() && visited@[j].spec_level() == level && #[trigger] acc[j]
                        ==> current@.contains(visited@[j]),
                par.len() == visited@.len(),
                forall|i: int|
                    6 <= i < visited@.len() ==> 0 <= #[trigger] par[i] < i && visited@[par[i]] == visited@[i].spec_parent(),
                forall|i: int, j: int|
                    6 <= i < j < visited@.len() ==> #[trigger] par[i] < #[trigger] par[j] || (par[i] == par[j]
                        && visited@[i].spec_child_index() < visited@[j].spec_child_index()),
                forall|i: int, j: int| 0 <= i < j < visited@.len() ==> #[trigger] visited@[i] != #[trigger] visited@[j],
                cur_pos.len() == current@.len(),
                forall|q: int|
                    0 <= q < cur_pos.len() ==> 0 <= #[trigger] cur_pos[q] < visited@.len() && visited@[cur_pos[q]]
                        == current@[q],
                forall|q1: int, q2: int| 0 <= q1 < q2 < cur_pos.len() ==> #[trigger] cur_pos[q1] < #[trigger] cur_pos[q2],
            decreases MAX_LEVEL - level,
        {
            let mut next: Vec<VNode> = Vec::new();
            let ghost mut next_pos: Seq<int> = Seq::empty();
            let ghost mut last_par: int = -1;
            let ghost start = visited@.len();
            let ghost before = visited@;
            let ghost acc_before = acc;
            let ghost par_before = par;
            for k in 0..current.len()
                invariant
                    forall|n: VNode| n.wf() ==> #[trigger] visit.requires((n,)),
                    level < MAX_LEVEL,
                    visited@.len() >= start,
                    start >= 6,
                    before.len() == start,
                    forall|i: int| 0 <= i < start ==> visited@[i] == before[i],
                    before.subrange(0, 6) == VNode::spec_roots(),
                    forall|i: int| 0 <= i < visited@.len() ==> (#[trigger] visited@[i]).wf(),
                    forall|i: int| 0 <= i < start ==> (#[trigger] before[i]).spec_level() <= level,
                    forall|i: int|
                        start <= i < visited@.len() ==> (#[trigger] visited@[i]).spec_level() == level + 1,
                    forall|i: int, j: int|
                        0 <= i < j < start ==> before[i].spec_level() <= before[j].spec_level(),
                    VNode::reached(visited@, visit),
                    VNode::expanded(before, visit, level),
                    acc.len() == visited@.len(),
                    acc_before.len() == start,
                    forall|j: int| 0 <= j < start ==> acc[j] == acc_before[j],
                    forall|j: int| 0 <= j < visited@.len() ==> visit.ensures((visited@[j],), #[trigger] acc[j]),
                    forall|k: int| 0 <= k < current@.len() ==> {
                        &&& (#[trigger] current@[k]).wf()
                        &&& current@[k].spec_level() == level
                        &&& before.contains(current@[k])
                        &&& visit.ensures((current@[k],), true)
                    },
                    forall|j: int|
                        0 <= j < start && before[j].spec_level() == level && #[trigger] acc_before[j]
                            ==> current@.contains(before[j]),
                    forall|m: int, c: VNode|
                        0 <= m < k && #[trigger] current@[m].spec_children().contains(c) ==> visited@.contains(c),
                    forall|q: int| 0 <= q < next@.len() ==> {
                        &&& (#[trigger] next@[q]).wf()
                        &&& next@[q].spec_level() == level + 1
                        &&& visited@.contains(next@[q])
                        &&& visit.ensures((next@[q],), true)
                    },
                    forall|j: int| start <= j < visited@.len() && #[trigger] acc[j] ==> next@.contains(visited@[j]),
                    par.len() == visited@.len(),
                    forall|i: int| 0 <= i < start ==> par[i] == par_before[i],
                    forall|i: int|
                        6 <= i < visited@.len() ==> 0 <= #[trigger] par[i] < i && visited@[par[i]] == visited@[i].spec_parent(),
                    forall|i: int, j: int|
                        6 <= i < j < visited@.len() ==> #[trigger] par[i] < #[trigger] par[j] || (par[i] == par[j]
                            && visited@[i].spec_child_index() < visited@[j].spec_child_index()),
                    forall|i: int, j: int| 0 <= i < j < visited@.len() ==> #[trigger] visited@[i] != #[trigger] visited@[j],
                    cur_pos.len() == current@.len(),
                    forall|q: int|
                        0 <= q < cur_pos.len() ==> 0 <= #[trigger] cur_pos[q] < start && before[cur_pos[q]] == current@[q],
                    forall|q1: int, q2: int| 0 <= q1 < q2 < cur_pos.len() ==> #[trigger] cur_pos[q1] < #[trigger] cur_pos[q2],
                    forall|i: int| start <= i < visited@.len() ==> #[trigger] par[i] <= last_par,
                    k == 0 ==> last_par == -1,
                    k > 0 ==> last_par == cur_pos[k - 1],
                    next_pos.len() == next@.len(),
                    forall|q: int|
                        0 <= q < next_pos.len() ==> start <= #[trigger] next_pos[q] < visited@.len() && visited@[next_pos[q]]
                            == next@[q],
                    forall|q1: int, q2: int| 0 <= q1 < q2 < next_pos.len() ==> #[trigger] next_pos[q1] < #[trigger] next_pos[q2],
            {
                let node = current[k];
                proof {
                    node.lemma_children_wf();
                }
                let children = node.children();
                let ghost mid = visited@.len();
                let ghost pos = cur_pos[k as int];
                proof {
                    if k > 0 {
                        assert(cur_pos[k - 1] < cur_pos[k as int]);
                    }
                    assert(visited@[pos] == node);
                }
                for c in 0..4
                    invariant
                        forall|n: VNode| n.wf() ==> #[trigger] visit.requires((n,)),
                        level < MAX_LEVEL,
                        node.wf(),
                        node.spec_level() == level,
                        before.contains(node),
                        visit.ensures((node,), true),
                        children@ == node.spec_children(),
                        forall|i: int| 0 <= i < 4 ==> (#[trigger] children@[i]).wf()
                            && children@[i].spec_level() == level + 1
                            && children@[i].spec_parent() == node
                            && children@[i].spec_child_index() == i,
                        mid >= start,
                        start >= 6,
                        visited@.len() == mid + c,
                        before.len() == start,
                        forall|i: int| 0 <= i < start ==> visited@[i] == before[i],
                        forall|i: int| 0 <= i < c ==> visited@[mid + i] == children@[i],
                        forall|i: int| 0 <= i < visited@.len() ==> (#[trigger] visited@[i]).wf(),
                        forall|i: int|
                            start <= i < visited@.len() ==> (#[trigger] visited@[i]).spec_level() == level + 1,
                        forall|i: int| 0 <= i < start ==> (#[trigger] before[i]).spec_level() <= level,
                        forall|i: int, j: int|
                            0 <= i < j < start ==> before[i].spec_level() <= before[j].spec_level(),
                        VNode::reached(visited@, visit),
                        acc.len() == visited@.len(),
                        acc_before.len() == start,
                        forall|j: int| 0 <= j < start ==> acc[j] == acc_before[j],
                        k < current@.len(),
                        forall|j: int| 0 <= j < visited@.len() ==> visit.ensures((visited@[j],), #[trigger] acc[j]),
                        forall|m: int, d: VNode|
                            0 <= m < k && #[trigger] current@[m].spec_children().contains(d) ==> visited@.contains(d),
                        forall|q: int| 0 <= q < next@.len() ==> {
                            &&& (#[trigger] next@[q]).wf()
                            &&& next@[q].spec_level() == level + 1
                            &&& visited@.contains(next@[q])
                            &&& visit.ensures((next@[q],), true)
                        },
                        forall|j: int| start <= j < visited@.len() && #[trigger] acc[j] ==> next@.contains(visited@[j]),
                        0 <= pos < start,
                        before[pos] == node,
                        par.len() == visited@.len(),
                        forall|i: int| 0 <= i < start ==> par[i] == par_before[i],
                        forall|i: int|
                            6 <= i < visited@.len() ==> 0 <= #[trigger] par[i] < i && visited@[par[i]] == visited@[i].spec_parent(),
                        forall|i: int, j: int|
                            6 <= i < j < visited@.len() ==> #[trigger] par[i] < #[trigger] par[j] || (par[i] == par[j]
                                && visited@[i].spec_child_index() < visited@[j].spec_child_index()),
                        forall|i: int, j: int| 0 <= i < j < visited@.len() ==> #[trigger] visited@[i] != #[trigger] visited@[j],
                        forall|i: int| start <= i < mid ==> #[trigger] par[i] < pos,
                        forall|i: int| mid <= i < visited@.len() ==> #[trigger] par[i] == pos,
                        next_pos.len() == next@.len(),
                        forall|q: int|
                            0 <= q < next_pos.len() ==> start <= #[trigger] next_pos[q] < visited@.len() && visited@[next_pos[q]]
                                == next@[q],
                        forall|q1: int, q2: int| 0 <= q1 < q2 < next_pos.len() ==> #[trigger] next_pos[q1] < #[trigger] next_pos[q2],
                {
                    let child = children[c];
                    let keep = visit(child);
                    let ghost old_visited = visited@;
                    let ghost old_next = next@;
                    let ghost old_par = par;
                    let ghost at = visited@.len() as int;
                    visited.push(child);
                    proof {
                        acc = acc.push(keep);
                        par = par.push(pos);
                        assert(visited@[pos] == node);
                        assert forall|i: int| 6 <= i < visited@.len() implies #[trigger] visited@[i].spec_level() >= 1
                            && exists|j: int| 0 <= j < i && visited@[j] == visited@[i].spec_parent()
                                && visit.ensures((visited@[j],), true) by {
                            if i < old_visited.len() {
                                assert(old_visited[i] == visited@[i]);
                                let j = choose|j: int| 0 <= j < i && old_visited[j] == old_visited[i].spec_parent()
                                    && visit.ensures((old_visited[j],), true);
                                assert(visited@[j] == old_visited[j]);
                            } else {
                                assert(visited@[i] == child);
                                assert(visited@[pos] == node);
                            }
                        }
                        assert forall|m: int, d: VNode|
                            0 <= m < k && #[trigger] current@[m].spec_children().contains(d) implies visited@.contains(d) by {
                            let w = choose|w: int| 0 <= w < old_visited.len() && old_visited[w] == d;
                            assert(visited@[w] == d);
                        }
                        assert forall|i: int|
                            6 <= i < visited@.len() implies 0 <= #[trigger] par[i] < i && visited@[par[i]] == visited@[i].spec_parent() by {
                            if i < at {
                                assert(par[i] == old_par[i]);
                                assert(visited@[old_par[i]] == old_visited[old_par[i]]);
                            }
                        }
                        assert forall|i: int, j: int|
                            6 <= i < j < visited@.len() implies #[trigger] par[i] < #[trigger] par[j] || (par[i] == par[j]
                                && visited@[i].spec_child_index() < visited@[j].spec_child_index()) by {
                            if j == at {
                                if i < start {
                                    // the parent of an earlier node is on an earlier level
                                    assert(par[i] == old_par[i]);
                                    assert(before[i].spec_level() <= level);
                                    assert(visited@[par[i]] == before[i].spec_parent());
                                    if par[i] >= pos {
                                        assert(before[pos].spec_level() <= before[par[i]].spec_level());
                                        before[i].lemma_parent_wf();
                                    }
                                } else if i < mid {
                                    assert(par[i] == old_par[i]);
                                } else {
                                    assert(par[i] == pos);
                                    assert(visited@[i] == children@[i - mid]);
                                }
                            } else {
                                assert(par[i] == old_par[i] && par[j] == old_par[j]);
                            }
                        }
                        assert forall|i: int, j: int| 0 <= i < j < visited@.len() implies #[trigger] visited@[i] != #[trigger] visited@[j] by {
                            if j == at {
                                if i < start {
                                    assert(visited@[i] == before[i]);
                                } else if i < mid {
                                    if visited@[i] == child {
                                        assert(visited@[par[i]] == node);
                                        assert(par[i] < pos);
                                    }
                                } else {
                                    assert(visited@[i] == children@[i - mid]);
                                }
                            }
                        }
                    }
                    if keep {
                        next.push(child);
                        proof {
                            next_pos = next_pos.push(at);
                        }
                    }
                    proof {
                        assert forall|q: int| 0 <= q < next@.len() implies visited@.contains(#[trigger] next@[q]) by {
                            if q < old_next.len() {
                                let w = choose|w: int| 0 <= w < old_visited.len() && old_visited[w] == old_next[q];
                                assert(visited@[w] == next@[q]);
                            } else {
                                assert(visited@[mid + c] == next@[q]);
                            }
                        }
                        assert forall|j: int| start <= j < visited@.len() && #[trigger] acc[j] implies next@.contains(visited@[j]) by {
                            if j < old_visited.len() {
                                let w = choose|w: int| 0 <= w < old_next.len() && old_next[w] == old_visited[j];
                                assert(next@[w] == visited@[j]);
                            } else {
                                assert(next@[next@.len() - 1] == visited@[j]);
                            }
                        }
                        assert forall|q: int|
                            0 <= q < next_pos.len() implies start <= #[trigger] next_pos[q] < visited@.len() && visited@[next_pos[q]]
                                == next@[q] by {
                            if q < old_next.len() {
                                assert(visited@[next_pos[q]] == old_visited[next_pos[q]]);
                            }
                        }
                    }
                }
                proof {
                    last_par = pos;
                    assert forall|m: int, d: VNode|
                        0 <= m < k + 1 && #[trigger] current@[m].spec_children().contains(d) implies visited@.contains(d) by {
                        if m == k {
                            let i = choose|i: int| 0 <= i < 4 && children@[i] == d;
                            assert(visited@[mid + i] == d);
                        }
                    }
                    assert forall|i: int| start <= i < visited@.len() implies #[trigger] par[i] <= last_par by {
                        if i < mid {
                            assert(par[i] < pos);
                        }
                    }
                }
            }
            proof {
                assert forall|i: int| 0 <= i < visited@.len() implies (#[trigger] visited@[i]).spec_level() <= level + 1 by {
                    if i < start {
                        assert(visited@[i] == before[i]);
                    }
                }
                assert forall|i: int, j: int|
                    0 <= i < j < visited@.len() implies visited@[i].spec_level() <= visited@[j].spec_level() by {
                    if j < start {
                        assert(visited@[i] == before[i] && visited@[j] == before[j]);
                    } else if i < start {
                        assert(visited@[i] == before[i]);
                    }
                }
                assert forall|j: int, c: VNode|
                    0 <= j < visited@.len() && visited@[j].spec_level() < level + 1 && (forall|b: bool|
                        visit.ensures((visited@[j],), b) ==> b) && #[trigger] visited@[j].spec_children().contains(c)
                        implies visited@.contains(c) by {
                    assert(j < start);
                    assert(visited@[j] == before[j]);
                    if before[j].spec_level() < level {
                        let w = choose|w: int| 0 <= w < before.len() && before[w] == c;
                        assert(visited@[w] == c);
                    } else {
                        assert(acc[j]);
                        assert(acc_before[j]);
                        let m = choose|m: int| 0 <= m < current@.len() && current@[m] == before[j];
                        assert(current@[m].spec_children().contains(c));
                    }
                }
                assert forall|j: int|
                    0 <= j < visited@.len() && visited@[j].spec_level() == level + 1 && #[trigger] acc[j]
                        implies next@.contains(visited@[j]) by {
                    if j < start {
                        assert(visited@[j] == before[j]);
                    }
                }
                assert forall|i: int| 0 <= i < 6 implies visited@.subrange(0, 6)[i] == VNode::spec_roots()[i] by {
                    assert(visited@[i] == before[i]);
                    assert(before.subrange(0, 6)[i] == before[i]);
                }
                assert(visited@.subrange(0, 6) =~= VNode::spec_roots());
                cur_pos = next_pos;
            }
            current = next;
            level = level + 1;
        }
        proof {
            assert forall|i: int, j: int, a: int, b: int|
                #![trigger visited@[a], visited@[b], visited@[i], visited@[j]]
                6 <= i < j < visited@.len() && 0 <= a < visited@.len() && 0 <= b < visited@.len() && visited@[a]
                    == visited@[i].spec_parent() && visited@[b] == visited@[j].spec_parent() implies a < b || (a
                    == b && visited@[i].spec_child_index() < visited@[j].spec_child_index()) by {
                assert(visited@[par[i]] == visited@[a]);
                assert(visited@[par[j]] == visited@[b]);
                if a != par[i] {
                    if a < par[i] {
                        assert(visited@[a] != visited@[par[i]]);
                    } else {
                        assert(visited@[par[i]] != visited@[a]);
                    }
                }
                if b != par[j] {
                    if b < par[j] {
                        assert(visited@[b] != visited@[par[j]]);
                    } else {
                        assert(visited@[par[j]] != visited@[b]);
                    }
                }
            }
        }
        visited
    }
}


impl VNode {
    /// The packed key, as stored in tile records.
    pub fn key_value(&self) -> (r: u64)
        ensures
            r == self.key(),
    {
        self.0
    }

    /// The node whose packed key is `key`, if `key` is the key of a node.
    pub fn from_key(key: u64) -> (r: Option<VNode>)
        ensures
            r matches Some(n) ==> n.wf() && n.key() == key,
            r is None ==> forall|n: VNode| n.wf() ==> n.key() != key,
    {
        let raw = VNode(key);
        let (l, f, x, y) = (raw.level(), raw.face(), raw.x(), raw.y());
        if l <= MAX_LEVEL && f < 6 && x < (1u32 << l) && y < (1u32 << l) {
            let n = VNode::new(l, f, x, y);
            if n.0 == key {
                return Some(n);
            }
        }
        None
    }
}


impl VNode {
    /// The number of cells along a side at each level.
    pub proof fn lemma_side_values()
        ensures
            side(0) == 1 && side(1) == 2 && side(2) == 4 && side(3) == 8 && side(4) == 16 && side(5) == 32,
            side(6) == 64 && side(7) == 128 && side(8) == 256 && side(9) == 512 && side(10) == 1024,
            side(11) == 2048 && side(12) == 4096 && side(13) == 8192 && side(14) == 16384,
            side(15) == 32768 && side(16) == 65536 && side(17) == 131072 && side(18) == 262144,
            side(19) == 524288 && side(20) == 1048576 && side(21) == 2097152 && side(22) == 4194304,
    {
        assert(1u32 << 0u8 == 1 && 1u32 << 1u8 == 2 && 1u32 << 2u8 == 4 && 1u32 << 3u8 == 8 && 1u32 << 4u8 == 16
            && 1u32 << 5u8 == 32 && 1u32 << 6u8 == 64 && 1u32 << 7u8 == 128 && 1u32 << 8u8 == 256 && 1u32 << 9u8
            == 512 && 1u32 << 10u8 == 1024 && 1u32 << 11u8 == 2048) by (bit_vector);
        assert(1u32 << 12u8 == 4096 && 1u32 << 13u8 == 8192 && 1u32 << 14u8 == 16384 && 1u32 << 15u8 == 32768
            && 1u32 << 16u8 == 65536 && 1u32 << 17u8 == 131072 && 1u32 << 18u8 == 262144 && 1u32 << 19u8
            == 524288 && 1u32 << 20u8 == 1048576 && 1u32 << 21u8 == 2097152 && 1u32 << 22u8 == 4194304)
            by (bit_vector);
    }

    /// The ancestor `g` levels up is a node, with the fields it is defined by.
    pub proof fn lemma_ancestor(self, g: nat)
        requires
            self.wf(),
            g <= self.spec_level(),
        ensures
            self.spec_ancestor(g).wf(),
            self.spec_ancestor(g).has_fields(
                (self.spec_level() - g) as u8,
                self.spec_face(),
                self.spec_x() >> g as u32,
                self.spec_y() >> g as u32,
            ),
    {
        let (l, x, y) = (self.spec_level(), self.spec_x(), self.spec_y());
        let gg = g as u32;
        assert(x >> gg < 1u32 << ((l - gg) as u8) && y >> gg < 1u32 << ((l - gg) as u8)) by (bit_vector)
            requires
                gg <= l <= 22,
                x < 1u32 << l,
                y < 1u32 << l,
        ;
        VNode::lemma_from_fields((l - g) as u8, self.spec_face(), x >> gg, y >> gg);
    }
}

} // verus!
