use terra::raster_cache::RasterCache;

#[test]
fn loads_are_coalesced() {
    let mut c: RasterCache<Vec<f32>> = RasterCache::new(2);
    assert!(c.begin_load((10, -3)));
    assert!(!c.begin_load((10, -3)));
    c.insert((10, -3), vec![1.0]);
    assert!(!c.begin_load((10, -3)));
    assert_eq!(c.get((10, -3)), Some(&vec![1.0]));
}

#[test]
fn least_recently_used_is_evicted() {
    let mut c: RasterCache<u32> = RasterCache::new(2);
    c.insert((0, 0), 1);
    c.insert((0, 1), 2);
    assert_eq!(c.get((0, 0)), Some(&1));
    c.insert((0, 2), 3);
    assert_eq!(c.len(), 2);
    assert_eq!(c.get((0, 1)), None);
    assert_eq!(c.get((0, 0)), Some(&1));
    assert_eq!(c.get((0, 2)), Some(&3));
}

#[test]
fn reinserting_replaces_the_value() {
    let mut c: RasterCache<u32> = RasterCache::new(2);
    c.insert((5, 5), 1);
    c.insert((5, 5), 7);
    assert_eq!(c.len(), 1);
    assert_eq!(c.get((5, 5)), Some(&7));
    assert_eq!(c.get((-5, 5)), None);
}

#[test]
fn zero_capacity_keeps_nothing() {
    let mut c: RasterCache<u32> = RasterCache::new(0);
    assert!(c.begin_load((1, 1)));
    c.insert((1, 1), 4);
    assert_eq!(c.len(), 0);
    assert_eq!(c.get((1, 1)), None);
    assert!(c.begin_load((1, 1)));
}
