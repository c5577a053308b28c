use terra::cache::Priority;
use terra::cpu_cache::CpuTileCache;
use terra::layer::LayerType;
use terra::node::VNode;

fn node(x: u32) -> VNode {
    VNode::new(4, 0, x, 1)
}

#[test]
fn requests_become_loads_once() {
    let mut c = CpuTileCache::new(2);
    c.request(LayerType::Albedo, node(1), Priority(5), 0);
    c.request(LayerType::Normals, node(2), Priority(6), 0);
    let loads = c.tick();
    assert_eq!(loads, vec![(LayerType::Albedo, node(1)), (LayerType::Normals, node(2))]);
    assert!(c.tick().is_empty());
}

#[test]
fn completed_loads_are_admitted_below_capacity() {
    let mut c = CpuTileCache::new(2);
    c.request(LayerType::Albedo, node(1), Priority(5), 0);
    c.tick();
    assert!(c.complete(LayerType::Albedo, node(1), vec![1, 2, 3], 0));
    assert_eq!(c.lookup(LayerType::Albedo, node(1)), Some(&vec![1, 2, 3]));
    assert_eq!(c.lookup(LayerType::Normals, node(1)), None);
    assert_eq!(c.len(), 1);
}

#[test]
fn loads_never_issued_are_discarded() {
    let mut c = CpuTileCache::new(2);
    assert!(!c.complete(LayerType::Albedo, node(1), vec![9], 0));
    assert_eq!(c.len(), 0);
    c.request(LayerType::Albedo, node(1), Priority(5), 0);
    assert!(!c.complete(LayerType::Albedo, node(1), vec![9], 0));
}

#[test]
fn full_pool_evicts_only_strictly_lower() {
    let mut c = CpuTileCache::new(1);
    c.request(LayerType::Albedo, node(1), Priority(5), 0);
    c.request(LayerType::Albedo, node(2), Priority(5), 0);
    c.request(LayerType::Albedo, node(3), Priority(9), 0);
    c.tick();
    assert!(c.complete(LayerType::Albedo, node(1), vec![1], 0));
    assert!(!c.complete(LayerType::Albedo, node(2), vec![2], 0));
    assert!(c.complete(LayerType::Albedo, node(3), vec![3], 1));
    assert_eq!(c.len(), 1);
    assert_eq!(c.lookup(LayerType::Albedo, node(1)), None);
    assert_eq!(c.lookup(LayerType::Albedo, node(3)), Some(&vec![3]));
}

#[test]
fn resident_tiles_take_new_priority() {
    let mut c = CpuTileCache::new(1);
    c.request(LayerType::Albedo, node(1), Priority(5), 0);
    c.tick();
    c.complete(LayerType::Albedo, node(1), vec![1], 0);
    c.request(LayerType::Albedo, node(1), Priority(50), 1);
    assert!(c.tick().is_empty());
    c.request(LayerType::Albedo, node(2), Priority(20), 1);
    c.tick();
    assert!(!c.complete(LayerType::Albedo, node(2), vec![2], 1));
    assert_eq!(c.lookup(LayerType::Albedo, node(1)), Some(&vec![1]));
}
