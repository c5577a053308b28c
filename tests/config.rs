use terra::dem::{decode_srtm3_hgt, DemParseError, DemSource, SRTM3_RESOLUTION};
use terra::generate::{
    blank_heightmap, pack_noise_ranks, MapFileBuilder, TextureQuality, VertexQuality,
};
use terra::layer::{LayerType, TextureFormat};

#[test]
fn quality_resolutions() {
    assert_eq!(VertexQuality::Low.resolution(), 33);
    assert_eq!(VertexQuality::Medium.resolution(), 65);
    assert_eq!(VertexQuality::High.resolution(), 129);
    assert_eq!(VertexQuality::Low.resolution_log2(), 5);
    assert_eq!(VertexQuality::Medium.resolution_log2(), 6);
    assert_eq!(VertexQuality::High.resolution_log2(), 7);
    assert_eq!(TextureQuality::Low.resolution(), 256);
    assert_eq!(TextureQuality::High.resolution(), 512);
    assert_eq!(TextureQuality::Ultra.resolution(), 1024);
    assert_eq!(VertexQuality::Medium.as_str(), "vm");
    assert_eq!(TextureQuality::Ultra.as_str(), "tu");
}

#[test]
fn builder_names() {
    let b = MapFileBuilder::new();
    assert_eq!(b.vertex_quality, VertexQuality::High);
    assert_eq!(b.texture_quality, TextureQuality::High);
    assert_eq!(b.name(), "90m_vh_th");
    assert_eq!(b.filename(), "maps/90m_vh_th");
    let b = b
        .vertex_quality(VertexQuality::Low)
        .texture_quality(TextureQuality::Ultra)
        .source(DemSource::Nasadem("/data".to_string()));
    assert_eq!(b.name(), "30m_vl_tu");
}

#[test]
fn derived_layers() {
    let b = MapFileBuilder::new();
    assert_eq!(b.heightmap_resolution(), 521);
    let layers = b.layers();
    assert_eq!(layers.len(), 4);
    assert_eq!(layers[0].layer_type, LayerType::Heightmaps);
    assert_eq!(layers[0].texture_resolution, 521);
    assert_eq!(layers[0].texture_border_size, 4);
    assert_eq!(layers[0].texture_format, TextureFormat::R32F);
    assert_eq!(layers[1].layer_type, LayerType::Displacements);
    assert_eq!(layers[1].texture_resolution, 129);
    assert_eq!(layers[1].texture_format, TextureFormat::RGBA32F);
    assert_eq!(layers[2].layer_type, LayerType::Albedo);
    assert_eq!(layers[2].texture_resolution, 516);
    assert_eq!(layers[2].texture_border_size, 2);
    assert_eq!(layers[3].layer_type, LayerType::Normals);
    assert_eq!(layers[3].texture_resolution, 516);
    assert_eq!(layers[3].texture_format, TextureFormat::RG8);
}

#[test]
fn present_levels() {
    let b = MapFileBuilder::new();
    assert_eq!(b.max_heights_present_level(), 6);
    assert_eq!(b.max_texture_present_level(), 4);
    let b = b.vertex_quality(VertexQuality::Low).texture_quality(TextureQuality::Ultra);
    assert_eq!(b.max_heights_present_level(), 8);
    assert_eq!(b.max_texture_present_level(), 3);
}

#[test]
fn blank_heightmaps() {
    let h = blank_heightmap(3);
    assert_eq!(h.len(), 36);
    assert!(h.iter().all(|&b| b == 0));
    assert_eq!(f32::from_le_bytes([h[0], h[1], h[2], h[3]]), 0.0);
}

fn orders() -> Vec<Vec<usize>> {
    vec![vec![0, 1, 2, 3], vec![3, 2, 1, 0], vec![1, 3, 0, 2], vec![2, 0, 3, 1]]
}

#[test]
fn noise_is_stable() {
    let a = pack_noise_ranks(&orders(), 4);
    let b = pack_noise_ranks(&orders(), 4);
    assert_eq!(a, b);
    assert_eq!(a.len(), 16);
    assert_eq!(&a[0..4], &[0, 192, 128, 64]);
    for channel in 0..4 {
        let mut values: Vec<u8> = (0..4).map(|p| a[4 * p + channel]).collect();
        values.sort();
        assert_eq!(values, vec![0, 64, 128, 192]);
    }
}

#[test]
fn noise_ranks_fill_a_byte() {
    let len = 512;
    let forward: Vec<usize> = (0..len).collect();
    let backward: Vec<usize> = (0..len).rev().collect();
    let orders = vec![forward.clone(), backward, forward.clone(), forward];
    let t = pack_noise_ranks(&orders, len);
    assert_eq!(t[4 * (len - 1)], 255);
    assert_eq!(t[1], 255);
    assert_eq!(t[4 * (len - 1) + 1], 0);
}

#[test]
fn dem_tile_names() {
    let srtm = DemSource::Srtm90m("tiles".to_string());
    assert_eq!(srtm.tile_name(5, 7), "n05_e007.hgt.sz");
    assert_eq!(srtm.tile_name(-10, -120), "s10_w120.hgt.sz");
    let nasa = DemSource::Nasadem(String::new());
    assert_eq!(nasa.tile_name(45, -3), "NASADEM_HGT_n45w003.zip");
    assert_eq!(srtm.resolution(), 90);
    assert_eq!(nasa.resolution(), 30);
    assert!(srtm.url_str().starts_with("https://opentopography"));
}

#[test]
fn dem_filenames() {
    assert_eq!(DemSource::Srtm90m("tiles".to_string()).filename(1, 2), "tiles/n01_e002.hgt.sz");
    assert_eq!(DemSource::Srtm90m("tiles/".to_string()).filename(1, 2), "tiles/n01_e002.hgt.sz");
    assert_eq!(DemSource::Srtm90m(String::new()).filename(1, 2), "n01_e002.hgt.sz");
}

#[test]
fn dem_file_lists() {
    let srtm = DemSource::Srtm90m(String::new());
    let listed = vec!["n00_e000.hgt.sz".to_string(), "s01_w002.hgt.sz".to_string()];
    assert!(srtm.tile_should_exist(-1, -2, &listed));
    assert!(!srtm.tile_should_exist(1, 2, &listed));
    assert!(!srtm.tile_should_exist(0, 0, &Vec::new()));
}

#[test]
fn srtm3_decoding() {
    assert_eq!(decode_srtm3_hgt(&[0u8; 10]), Err(DemParseError));
    let n = SRTM3_RESOLUTION * SRTM3_RESOLUTION;
    let mut hgt = vec![0u8; n * 2];
    hgt[0] = 0x01;
    hgt[1] = 0x02;
    hgt[2] = 0x80;
    hgt[3] = 0x00;
    hgt[4] = 0xff;
    hgt[5] = 0xfe;
    let h = decode_srtm3_hgt(&hgt).unwrap();
    assert_eq!(h.len(), n);
    assert_eq!(h[0], 258);
    assert_eq!(h[1], 0);
    assert_eq!(h[2], -2);
    assert_eq!(h[3], 0);
}
