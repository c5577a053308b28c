//! Per-frame choices of the quadtree walk: which nodes to refine, which to
//! draw, and which resident tile a node is drawn from.

use crate::cache::{is_resident, slot_node, Priority, TileCache};
use crate::node::{low_bits, VNode, MAX_LEVEL};
use vstd::prelude::*;

verus! {

/// The bits of the cutoff priority 1.0.
pub const CUTOFF_BITS: u32 = 0x3f80_0000;

/// The bits of a quarter of the cutoff: below it a node that is not refined
/// is not drawn either, so that nodes do not flicker in and out at the cutoff.
pub const DRAW_THRESHOLD_BITS: u32 = 0x3e80_0000;

/// Whether the walk descends into the node's children: it is needed and
/// not at the last level.
pub fn should_refine(priority: Priority, level: u8) -> (r: bool)
    ensures
        r == (priority.0 >= CUTOFF_BITS && level < MAX_LEVEL),
{
    priority.0 >= CUTOFF_BITS && level < MAX_LEVEL
}

/// Whether a node is drawn: it is not refined, its priority reaches the
/// draw threshold, and its level has tiles in the layer.
pub fn should_draw(priority: Priority, level: u8, max_present_level: u8) -> (r: bool)
    ensures
        r == (!(priority.0 >= CUTOFF_BITS && level < MAX_LEVEL) && priority.0 >= DRAW_THRESHOLD_BITS && level
            <= max_present_level),
{
    !should_refine(priority, level) && priority.0 >= DRAW_THRESHOLD_BITS && level <= max_present_level
}

/// The slot a node is drawn from: that of the node itself if its tile is
/// resident, else that of its nearest resident ancestor, with the number of
/// levels climbed and the node's position within that ancestor in units of
/// the node's cells. `None` when no tile of the node or its ancestors is resident.
pub fn draw_source(cache: &TileCache, node: VNode) -> (r: Option<(usize, usize, (u32, u32))>)
    requires
        node.wf(),
    ensures
        r matches Some((slot, g, off)) ==> {
            &&& g <= node.spec_level()
            &&& slot < cache@.len()
            &&& slot_node(cache@[slot as int]) == Some(node.spec_ancestor(g as nat))
            &&& off == (low_bits(node.spec_x(), g as u32), low_bits(node.spec_y(), g as u32))
            &&& forall|k: nat| k < g ==> !is_resident(cache@, #[trigger] node.spec_ancestor(k))
        },
        r is None ==> forall|k: nat| k <= node.spec_level() ==> !is_resident(cache@, #[trigger] node.spec_ancestor(k)),
{
    let resident = |a: VNode| -> (b: bool)
        ensures
            b == is_resident(cache@, a),
        { cache.lookup_slot(a).is_some() };
    match node.find_ancestor(resident) {
        Some((a, g, off)) => match cache.lookup_slot(a) {
            Some(slot) => Some((slot, g, off)),
            None => None,
        },
        None => None,
    }
}

} // verus!
