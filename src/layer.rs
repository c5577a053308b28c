//! Tile layers and the pixel formats of their textures.

use vstd::prelude::*;

verus! {

/// The kinds of raster tile kept for each node.
#[derive(Clone, Copy, PartialEq, Eq, Structural, Debug, Hash)]
pub enum LayerType {
    Heightmaps,
    Displacements,
    Albedo,
    Normals,
    Roughness,
}

impl LayerType {
    pub open spec fn spec_index(&self) -> u32 {
        match self {
            LayerType::Heightmaps => 0,
            LayerType::Displacements => 1,
            LayerType::Albedo => 2,
            LayerType::Normals => 3,
            LayerType::Roughness => 4,
        }
    }

    pub open spec fn spec_from_index(i: u32) -> Option<LayerType> {
        if i == 0 {
            Some(LayerType::Heightmaps)
        } else if i == 1 {
            Some(LayerType::Displacements)
        } else if i == 2 {
            Some(LayerType::Albedo)
        } else if i == 3 {
            Some(LayerType::Normals)
        } else if i == 4 {
            Some(LayerType::Roughness)
        } else {
            None
        }
    }

    /// Position of the layer in declaration order.
    #[verifier::when_used_as_spec(spec_index)]
    pub fn index(&self) -> (r: u32)
        ensures
            r == self.spec_index(),
    {
        match self {
            LayerType::Heightmaps => 0,
            LayerType::Displacements => 1,
            LayerType::Albedo => 2,
            LayerType::Normals => 3,
            LayerType::Roughness => 4,
        }
    }

    /// The layer at position `i`, if there is one.
    pub fn from_index(i: u32) -> (r: Option<LayerType>)
        ensures
            r == LayerType::spec_from_index(i),
            r matches Some(l) ==> l.spec_index() == i,
    {
        match i {
            0 => Some(LayerType::Heightmaps),
            1 => Some(LayerType::Displacements),
            2 => Some(LayerType::Albedo),
            3 => Some(LayerType::Normals),
            4 => Some(LayerType::Roughness),
            _ => None,
        }
    }
}

/// Pixel formats of tile and texture data.
#[derive(Clone, Copy, PartialEq, Eq, Structural, Debug, Hash)]
pub enum TextureFormat {
    R32F,
    RGBA32F,
    RGBA8,
    RG8,
    BC4,
    BC5,
}

impl TextureFormat {
    pub open spec fn spec_bytes_per_block(&self) -> u32 {
        match self {
            TextureFormat::R32F => 4,
            TextureFormat::RGBA32F => 16,
            TextureFormat::RGBA8 => 4,
            TextureFormat::RG8 => 2,
            TextureFormat::BC4 => 8,
            TextureFormat::BC5 => 16,
        }
    }

    pub open spec fn spec_block_size(&self) -> u32 {
        match self {
            TextureFormat::BC4 | TextureFormat::BC5 => 4,
            _ => 1,
        }
    }

    /// Bytes taken by one block of pixels.
    #[verifier::when_used_as_spec(spec_bytes_per_block)]
    pub fn bytes_per_block(&self) -> (r: u32)
        ensures
            r == self.spec_bytes_per_block(),
    {
        match self {
            TextureFormat::R32F => 4,
            TextureFormat::RGBA32F => 16,
            TextureFormat::RGBA8 => 4,
            TextureFormat::RG8 => 2,
            TextureFormat::BC4 => 8,
            TextureFormat::BC5 => 16,
        }
    }

    /// Width and height in pixels of one block: 4 for the compressed formats, else 1.
    #[verifier::when_used_as_spec(spec_block_size)]
    pub fn block_size(&self) -> (r: u32)
        ensures
            r == self.spec_block_size(),
    {
        match self {
            TextureFormat::BC4 | TextureFormat::BC5 => 4,
            _ => 1,
        }
    }
}

/// How the tiles of one layer are stored: all tiles of a layer share these.
#[derive(Clone, Copy, PartialEq, Eq, Structural, Debug)]
pub struct LayerParams {
    pub layer_type: LayerType,
    pub texture_resolution: u32,
    pub texture_border_size: u32,
    pub texture_format: TextureFormat,
}

} // verus!
