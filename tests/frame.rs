use terra::cache::{Priority, TileCache};
use terra::frame::{draw_source, should_draw, should_refine};
use terra::node::VNode;

#[test]
fn refinement_follows_the_cutoff() {
    assert!(should_refine(Priority(2.0f32.to_bits()), 3));
    assert!(should_refine(Priority(1.0f32.to_bits()), 21));
    assert!(!should_refine(Priority(0.99f32.to_bits()), 3));
    assert!(!should_refine(Priority(5.0f32.to_bits()), 22));
}

#[test]
fn drawing_uses_the_hysteresis_threshold() {
    assert!(should_draw(Priority(0.5f32.to_bits()), 3, 6));
    assert!(should_draw(Priority(0.25f32.to_bits()), 3, 6));
    assert!(!should_draw(Priority(0.2f32.to_bits()), 3, 6));
    assert!(!should_draw(Priority(0.5f32.to_bits()), 7, 6));
    assert!(!should_draw(Priority(3.0f32.to_bits()), 3, 6));
}

#[test]
fn draws_from_the_node_itself_when_resident() {
    let n = VNode::new(2, 1, 3, 2);
    let mut cache = TileCache::new(2);
    cache.ensure(&vec![(n, Priority(1))]);
    assert_eq!(draw_source(&cache, n), Some((0, 0, (0, 0))));
}

#[test]
fn falls_back_to_the_nearest_resident_ancestor() {
    let n = VNode::new(3, 2, 5, 6);
    let root = VNode::roots()[2];
    let (parent, _) = VNode::new(1, 2, 1, 1).parent().unwrap();
    assert_eq!(parent, root);
    let mut cache = TileCache::new(2);
    cache.ensure(&vec![(root, Priority(1)), (VNode::new(1, 2, 1, 1), Priority(2))]);
    let (slot, g, off) = draw_source(&cache, n).unwrap();
    assert_eq!(cache.slot(slot).unwrap().0, VNode::new(1, 2, 1, 1));
    assert_eq!(g, 2);
    assert_eq!(off, (1, 2));
}

#[test]
fn nothing_to_draw_from() {
    let cache = TileCache::new(3);
    assert_eq!(draw_source(&cache, VNode::new(4, 0, 1, 1)), None);
}
