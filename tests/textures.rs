use terra::layer::TextureFormat;
use terra::shader::ShaderSource;
use terra::texture::{texture_file_name, TextureDescriptor, UploadLayout};

fn desc(width: u32, height: u32, depth: u32, format: TextureFormat) -> TextureDescriptor {
    TextureDescriptor { width, height, depth, format, bytes: 0 }
}

#[test]
fn noise_texture_layout() {
    let d = desc(2048, 2048, 1, TextureFormat::RGBA8);
    assert_eq!(
        d.upload_layout(),
        Some(UploadLayout { row_bytes: 8192, row_pitch: 8192, rows: 2048 })
    );
}

#[test]
fn rows_are_padded_to_256_bytes() {
    let d = desc(33, 10, 3, TextureFormat::R32F);
    assert_eq!(d.upload_layout(), Some(UploadLayout { row_bytes: 132, row_pitch: 256, rows: 30 }));
}

#[test]
fn compressed_blocks() {
    let d = desc(16, 8, 1, TextureFormat::BC5);
    assert_eq!(d.upload_layout(), Some(UploadLayout { row_bytes: 64, row_pitch: 256, rows: 2 }));
    assert_eq!(desc(6, 8, 1, TextureFormat::BC4).upload_layout(), None);
    assert_eq!(desc(8, 6, 1, TextureFormat::BC4).upload_layout(), None);
}

#[test]
fn texture_files() {
    assert_eq!(texture_file_name("noise", TextureFormat::RGBA8), "noise.bmp");
    assert_eq!(texture_file_name("transmittance", TextureFormat::RGBA32F), "transmittance.raw");
}

#[test]
fn shader_sources() {
    let s = ShaderSource { source: Some("void main() {}".to_string()), filenames: None };
    assert!(s.source.is_some() && s.filenames.is_none());
}
