//! Large rectangular assets kept beside the tiles: their descriptors, file
//! names and the layout of their upload to the device.

use crate::layer::TextureFormat;
use vstd::prelude::*;
use vstd::string::StringExecFns;

verus! {

/// Size and format of a stored texture.
#[derive(Clone, Copy, PartialEq, Eq, Structural, Debug)]
pub struct TextureDescriptor {
    pub width: u32,
    pub height: u32,
    pub depth: u32,
    pub format: TextureFormat,
    pub bytes: usize,
}

/// How the rows of a texture are laid out in an upload buffer.
#[derive(Clone, Copy, PartialEq, Eq, Structural, Debug)]
pub struct UploadLayout {
    /// Bytes of texture data in one row of blocks.
    pub row_bytes: usize,
    /// Bytes between the starts of two rows: `row_bytes` rounded up to 256.
    pub row_pitch: usize,
    /// Rows of blocks over all layers.
    pub rows: usize,
}

/// `v` rounded up to a multiple of 256.
pub open spec fn round_up_256(v: int) -> int {
    (v + 255) / 256 * 256
}

impl TextureDescriptor {
    /// The layout of the texture's upload, or `None` when its width or its
    /// height over all layers is not a whole number of blocks, or when the
    /// layout does not fit in this machine's sizes.
    pub fn upload_layout(&self) -> (r: Option<UploadLayout>)
        ensures
            ({
                let b = self.format.spec_block_size() as int;
                let h = self.height as int * self.depth as int;
                match r {
                    Some(l) => {
                        &&& self.width as int % b == 0
                        &&& h % b == 0
                        &&& l.row_bytes == self.width as int / b * self.format.spec_bytes_per_block() as int
                        &&& l.row_pitch == round_up_256(l.row_bytes as int)
                        &&& l.rows == h / b
                    },
                    None => self.width as int % b != 0 || h % b != 0 || round_up_256(
                        self.width as int / b * self.format.spec_bytes_per_block() as int,
                    ) > usize::MAX || h / b > usize::MAX,
                }
            }),
    {
        let block = self.format.block_size() as u64;
        let width = self.width as u64;
        assert(self.height as u64 * self.depth as u64 <= 0xffff_ffffu64 * 0xffff_ffffu64) by (nonlinear_arith);
        let height = self.height as u64 * self.depth as u64;
        if width % block != 0 || height % block != 0 {
            return None;
        }
        let row_bytes: u64 = width / block * self.format.bytes_per_block() as u64;
        assert(width / block * 16 <= 0xffff_ffffu64 * 16) by (nonlinear_arith)
            requires
                block >= 1,
                width <= 0xffff_ffffu64,
        ;
        let row_pitch: u64 = (row_bytes + 255) / 256 * 256;
        if row_pitch > usize::MAX as u64 || height / block > usize::MAX as u64 {
            return None;
        }
        Some(UploadLayout { row_bytes: row_bytes as usize, row_pitch: row_pitch as usize, rows: (height / block) as usize })
    }
}

/// The file that holds a texture: `{name}.bmp` for RGBA8 textures, else `{name}.raw`.
pub fn texture_file_name(name: &str, format: TextureFormat) -> (r: String)
    ensures
        r@ == name@ + (if format == TextureFormat::RGBA8 { ".bmp"@ } else { ".raw"@ }),
{
    let mut s = String::from_str(name);
    if format == TextureFormat::RGBA8 {
        s.append(".bmp");
    } else {
        s.append(".raw");
    }
    s
}

} // verus!
