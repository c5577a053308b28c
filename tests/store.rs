use terra::layer::LayerType;
use terra::mapfile::{
    default_tiles_url, download_succeeded, is_downloadable, open_plan, needs_migration, reload_tile_state, stored_version,
    tile_name, tile_source, tile_state, tile_url, version_text, written_state, StoreError,
    TileMeta, TileSource, TileState,
};
use terra::node::VNode;
use terra::records::{
    clear_generated, decode_tile_key, decode_tile_meta, encode_tile_meta, get_missing_base,
    layer_key_prefix, tile_key,
};

#[test]
fn tile_names() {
    let n = VNode::new(3, 2, 5, 6);
    assert_eq!(tile_name(LayerType::Heightmaps, n), "heightmaps/heightmaps_3_90E_5x6.raw");
    assert_eq!(
        tile_name(LayerType::Roughness, VNode::roots()[1]),
        "roughness/roughness_0_180E_0x0.raw.lz4"
    );
    assert_eq!(
        tile_name(LayerType::Albedo, VNode::new(12, 5, 4000, 17)),
        "albedo/albedo_12_S_4000x17.png"
    );
}

#[test]
fn tile_urls() {
    let n = VNode::new(1, 4, 1, 0);
    assert_eq!(
        tile_url(default_tiles_url(), LayerType::Normals, n),
        "https://terra.fintelia.io/file/terra-tiles/normals/normals_1_N_1x0.raw"
    );
}

#[test]
fn downloadable_layers() {
    assert!(is_downloadable(LayerType::Albedo));
    assert!(is_downloadable(LayerType::Heightmaps));
    assert!(is_downloadable(LayerType::Roughness));
    assert!(!is_downloadable(LayerType::Normals));
    assert!(!is_downloadable(LayerType::Displacements));
}

#[test]
fn missing_tile_sources() {
    let n = VNode::new(2, 0, 1, 3);
    assert_eq!(tile_source(LayerType::Normals, n, true), Ok(TileSource::Disk));
    assert_eq!(tile_source(LayerType::Heightmaps, n, false), Ok(TileSource::Remote));
    assert_eq!(
        tile_source(LayerType::Displacements, n, false),
        Err(StoreError::TileMissing(LayerType::Displacements, n))
    );
}

#[test]
fn states() {
    assert_eq!(tile_state(None), TileState::GpuOnly);
    assert_eq!(tile_state(Some(TileMeta { crc32: 0, state: TileState::Base })), TileState::Base);
    assert_eq!(written_state(true), TileState::Base);
    assert_eq!(written_state(false), TileState::Generated);
}

#[test]
fn reload_states() {
    assert_eq!(reload_tile_state(None, true, true).0, TileState::Base);
    assert_eq!(reload_tile_state(None, true, false).0, TileState::MissingBase);
    assert_eq!(reload_tile_state(None, false, true).0, TileState::Generated);
    assert_eq!(reload_tile_state(None, false, false).0, TileState::Missing);
    let base = TileMeta { crc32: 9, state: TileState::Base };
    assert_eq!(reload_tile_state(Some(base), true, true), (TileState::Base, None));
    assert_eq!(
        reload_tile_state(Some(base), true, false),
        (TileState::MissingBase, Some(TileMeta { crc32: 0, state: TileState::MissingBase }))
    );
}

#[test]
fn version_migration() {
    assert_eq!(needs_migration(Some("1")), Ok(true));
    assert_eq!(needs_migration(Some("0")), Ok(true));
    assert_eq!(needs_migration(Some("2")), Ok(false));
    assert_eq!(needs_migration(None), Ok(false));
    assert_eq!(needs_migration(Some("two")), Err(StoreError::DbCorrupt));
    assert_eq!(version_text(), "2");
    assert_eq!(needs_migration(Some(version_text().as_str())), Ok(false));
}

#[test]
fn version_parsing() {
    assert_eq!(stored_version(Some("17")), Ok(17));
    assert_eq!(stored_version(Some("-3")), Ok(-3));
    assert_eq!(stored_version(Some("+4")), Ok(4));
    assert_eq!(stored_version(Some("")), Err(StoreError::DbCorrupt));
    assert_eq!(stored_version(Some("99999999999")), Err(StoreError::DbCorrupt));
    assert_eq!(stored_version(None), Ok(2));
}

#[test]
fn key_bytes() {
    let n = VNode::new(1, 3, 1, 0);
    let key = tile_key(LayerType::Albedo, n);
    let mut expected = vec![2u8, 0, 0, 0];
    expected.extend_from_slice(&n.key_value().to_le_bytes());
    assert_eq!(key, expected);
    assert_eq!(layer_key_prefix(LayerType::Albedo), vec![2u8, 0, 0, 0]);
    assert_eq!(decode_tile_key(&key), Some((LayerType::Albedo, n)));
    assert_eq!(decode_tile_key(&key[..11]), None);
    let mut longer = key.clone();
    longer.push(0);
    assert_eq!(decode_tile_key(&longer), None);
}

#[test]
fn meta_bytes() {
    let m = TileMeta { crc32: 0x0102_0304, state: TileState::MissingBase };
    let v = encode_tile_meta(m);
    assert_eq!(v, vec![4u8, 3, 2, 1, 4, 0, 0, 0]);
    assert_eq!(decode_tile_meta(&v), Some(m));
    assert_eq!(decode_tile_meta(&[0, 0, 0, 0, 9, 0, 0, 0]), None);
    assert_eq!(decode_tile_meta(&[0, 0, 0]), None);
}

fn entry(layer: LayerType, n: VNode, state: TileState) -> (Vec<u8>, Vec<u8>) {
    (tile_key(layer, n), encode_tile_meta(TileMeta { crc32: 0, state }))
}

#[test]
fn scans_select_by_layer_and_state() {
    let a = VNode::new(1, 0, 0, 1);
    let b = VNode::new(2, 3, 3, 3);
    let c = VNode::new(0, 5, 0, 0);
    let entries = vec![
        entry(LayerType::Heightmaps, a, TileState::MissingBase),
        entry(LayerType::Heightmaps, b, TileState::Generated),
        entry(LayerType::Albedo, c, TileState::MissingBase),
        entry(LayerType::Heightmaps, c, TileState::MissingBase),
    ];
    assert_eq!(get_missing_base(LayerType::Heightmaps, &entries), Ok(vec![a, c]));
    assert_eq!(get_missing_base(LayerType::Albedo, &entries), Ok(vec![c]));
    assert_eq!(
        clear_generated(LayerType::Heightmaps, &entries),
        Ok(vec![tile_key(LayerType::Heightmaps, b)])
    );
}

#[test]
fn clearing_generated_leaves_none() {
    let nodes = [VNode::new(1, 1, 0, 0), VNode::new(1, 1, 1, 0), VNode::new(1, 1, 0, 1)];
    let mut table = std::collections::BTreeMap::new();
    for (i, n) in nodes.iter().enumerate() {
        let state = if i % 2 == 0 { TileState::Generated } else { TileState::Base };
        let (k, v) = entry(LayerType::Normals, *n, state);
        table.insert(k, v);
    }
    let entries: Vec<(Vec<u8>, Vec<u8>)> = table.clone().into_iter().collect();
    for k in clear_generated(LayerType::Normals, &entries).unwrap() {
        table.remove(&k);
    }
    assert_eq!(table.len(), 1);
    for v in table.values() {
        assert_eq!(decode_tile_meta(v).unwrap().state, TileState::Base);
    }
}

#[test]
fn corrupt_entries_are_reported() {
    let entries = vec![(vec![1u8, 2, 3], vec![0u8; 8])];
    assert_eq!(get_missing_base(LayerType::Heightmaps, &entries), Err(StoreError::DbCorrupt));
    assert_eq!(clear_generated(LayerType::Heightmaps, &entries), Err(StoreError::DbCorrupt));
}

#[test]
fn opening_old_databases() {
    assert_eq!(open_plan(Some("1")), Ok((true, "2".to_string())));
    assert_eq!(open_plan(Some("2")), Ok((false, "2".to_string())));
    assert_eq!(open_plan(None), Ok((false, "2".to_string())));
    assert_eq!(open_plan(Some("v2")), Err(StoreError::DbCorrupt));
}

#[test]
fn download_statuses() {
    assert!(download_succeeded(200));
    assert!(download_succeeded(204));
    assert!(!download_succeeded(404));
    assert!(!download_succeeded(301));
    assert!(!download_succeeded(199));
}
