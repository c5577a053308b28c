//! Core of a planet-scale terrain engine: the cube quadtree that addresses the
//! surface of a sphere, the naming and bookkeeping of stored tiles, and the
//! bounded tile cache that follows a moving viewpoint.

pub mod cache;
pub mod cpu_cache;
pub mod dem;
pub mod frame;
pub mod generate;
pub mod layer;
pub mod mapfile;
pub mod node;
pub mod raster_cache;
pub mod records;
pub mod shader;
pub mod text;
pub mod texture;
