use terra::cache::{Priority, TileCache};
use terra::node::VNode;

fn node(x: u32) -> VNode {
    VNode::new(5, 1, x, 0)
}

fn nodes_of(c: &TileCache) -> Vec<Option<VNode>> {
    (0..c.capacity()).map(|s| c.slot(s).map(|(n, _)| n)).collect()
}

#[test]
fn empty_cache() {
    let c = TileCache::new(3);
    assert_eq!(c.capacity(), 3);
    assert_eq!(nodes_of(&c), vec![None, None, None]);
    assert_eq!(c.lookup_slot(node(0)), None);
}

#[test]
fn fills_empty_slots_first() {
    let mut c = TileCache::new(3);
    let up = c.ensure(&vec![(node(1), Priority(10)), (node(2), Priority(20))]);
    assert_eq!(up.len(), 2);
    assert!(c.lookup_slot(node(1)).is_some());
    assert!(c.lookup_slot(node(2)).is_some());
    assert_eq!(c.lookup_slot(node(2)), Some(0));
}

#[test]
fn evicts_lowest_when_full() {
    let mut c = TileCache::new(2);
    c.ensure(&vec![(node(1), Priority(10)), (node(2), Priority(20))]);
    let up = c.ensure(&vec![(node(3), Priority(15))]);
    assert_eq!(up.len(), 1);
    assert_eq!(c.lookup_slot(node(1)), None);
    assert!(c.lookup_slot(node(2)).is_some());
    assert_eq!(c.lookup_slot(node(3)), Some(up[0]));
}

#[test]
fn drops_newcomer_that_is_not_higher() {
    let mut c = TileCache::new(2);
    c.ensure(&vec![(node(1), Priority(10)), (node(2), Priority(20))]);
    let up = c.ensure(&vec![(node(3), Priority(10))]);
    assert!(up.is_empty());
    assert_eq!(c.lookup_slot(node(3)), None);
}

#[test]
fn refreshed_priority_protects_resident() {
    let mut c = TileCache::new(2);
    c.ensure(&vec![(node(1), Priority(10)), (node(2), Priority(20))]);
    c.ensure(&vec![(node(1), Priority(30)), (node(3), Priority(25))]);
    assert!(c.lookup_slot(node(1)).is_some());
    assert!(c.lookup_slot(node(3)).is_some());
    assert_eq!(c.lookup_slot(node(2)), None);
}

#[test]
fn resident_set_stays_within_previous_and_desired() {
    let mut c = TileCache::new(3);
    c.ensure(&vec![(node(1), Priority(5)), (node(2), Priority(6)), (node(3), Priority(7))]);
    let before = nodes_of(&c);
    let desired = vec![(node(4), Priority(9)), (node(5), Priority(1)), (node(6), Priority(8))];
    c.ensure(&desired);
    let after = nodes_of(&c);
    assert_eq!(after.len(), 3);
    for n in after.iter().flatten() {
        assert!(before.contains(&Some(*n)) || desired.iter().any(|d| d.0 == *n));
    }
    assert!(c.lookup_slot(node(4)).is_some());
    assert!(c.lookup_slot(node(6)).is_some());
    assert_eq!(c.lookup_slot(node(5)), None);
}

#[test]
fn cutoff_priority() {
    assert_eq!(Priority::cutoff(), Priority(1.0f32.to_bits()));
    assert!(Priority(1.5f32.to_bits()).is_needed());
    assert!(!Priority(0.75f32.to_bits()).is_needed());
}

#[test]
fn full_cache_takes_higher_newcomers() {
    let mut c = TileCache::new(2);
    c.ensure(&vec![(node(1), Priority(10)), (node(2), Priority(20))]);
    let up = c.ensure(&vec![(node(3), Priority(30)), (node(4), Priority(40))]);
    assert_eq!(up.len(), 2);
    assert!(c.lookup_slot(node(3)).is_some());
    assert!(c.lookup_slot(node(4)).is_some());
    assert_eq!(c.lookup_slot(node(1)), None);
    assert_eq!(c.lookup_slot(node(2)), None);
}
