//! The tile store's own rules: where each tile lives, what state a tile is
//! in, how its metadata record is keyed and encoded, and which records a scan
//! of the metadata selects. Reading and writing files and the database is left
//! to the caller, who hands over what it read.

use crate::layer::LayerType;
use crate::node::VNode;
use crate::text::{decimal, push_decimal};
use vstd::prelude::*;
use vstd::string::StringExecFns;

verus! {

/// Lifecycle of one tile of one layer.
#[derive(Clone, Copy, PartialEq, Eq, Structural, Debug)]
pub enum TileState {
    Missing,
    Base,
    Generated,
    GpuOnly,
    MissingBase,
}

/// The persisted record of a tile.
#[derive(Clone, Copy, PartialEq, Eq, Structural, Debug)]
pub struct TileMeta {
    pub crc32: u32,
    pub state: TileState,
}

/// Failures of the tile store.
#[derive(Clone, Copy, PartialEq, Eq, Structural, Debug)]
pub enum StoreError {
    /// The metadata database holds something that cannot be read back.
    DbCorrupt,
    /// The tile exists neither on disk nor, for its layer, remotely.
    TileMissing(LayerType, VNode),
}

pub open spec fn face_name(face: u8) -> Seq<char> {
    if face == 0 {
        "0E"@
    } else if face == 1 {
        "180E"@
    } else if face == 2 {
        "90E"@
    } else if face == 3 {
        "90W"@
    } else if face == 4 {
        "N"@
    } else {
        "S"@
    }
}

pub open spec fn layer_name(layer: LayerType) -> Seq<char> {
    match layer {
        LayerType::Displacements => "displacements"@,
        LayerType::Albedo => "albedo"@,
        LayerType::Roughness => "roughness"@,
        LayerType::Normals => "normals"@,
        LayerType::Heightmaps => "heightmaps"@,
    }
}

pub open spec fn layer_extension(layer: LayerType) -> Seq<char> {
    match layer {
        LayerType::Displacements => "raw"@,
        LayerType::Albedo => "png"@,
        LayerType::Roughness => "raw.lz4"@,
        LayerType::Normals => "raw"@,
        LayerType::Heightmaps => "raw"@,
    }
}

/// `{layer}/{layer}_{level}_{face}_{x}x{y}.{ext}`
pub open spec fn spec_tile_name(layer: LayerType, node: VNode) -> Seq<char> {
    layer_name(layer) + "/"@ + layer_name(layer) + "_"@ + decimal(node.spec_level() as nat) + "_"@
        + face_name(node.spec_face()) + "_"@ + decimal(node.spec_x() as nat) + "x"@ + decimal(
        node.spec_y() as nat,
    ) + "."@ + layer_extension(layer)
}

fn face_str(face: u8) -> (r: &'static str)
    ensures
        r@ == face_name(face),
{
    match face {
        0 => "0E",
        1 => "180E",
        2 => "90E",
        3 => "90W",
        4 => "N",
        _ => "S",
    }
}

fn layer_strs(layer: LayerType) -> (r: (&'static str, &'static str))
    ensures
        r.0@ == layer_name(layer),
        r.1@ == layer_extension(layer),
{
    match layer {
        LayerType::Displacements => ("displacements", "raw"),
        LayerType::Albedo => ("albedo", "png"),
        LayerType::Roughness => ("roughness", "raw.lz4"),
        LayerType::Normals => ("normals", "raw"),
        LayerType::Heightmaps => ("heightmaps", "raw"),
    }
}

/// Path of a tile relative to the tile directory, and to the remote store.
pub fn tile_name(layer: LayerType, node: VNode) -> (r: String)
    ensures
        r@ == spec_tile_name(layer, node),
{
    let (name, ext) = layer_strs(layer);
    let mut s = String::from_str(name);
    s.append("/");
    s.append(name);
    s.append("_");
    push_decimal(&mut s, node.level() as u64);
    s.append("_");
    s.append(face_str(node.face()));
    s.append("_");
    push_decimal(&mut s, node.x() as u64);
    s.append("x");
    push_decimal(&mut s, node.y() as u64);
    s.append(".");
    s.append(ext);
    assert(s@ =~= spec_tile_name(layer, node));
    s
}

/// Base URL of the remote tile store when no other is configured.
pub fn default_tiles_url() -> (r: &'static str)
    ensures
        r@ == "https://terra.fintelia.io/file/terra-tiles/"@,
{
    "https://terra.fintelia.io/file/terra-tiles/"
}

/// Where a tile is fetched from: the base URL followed by the tile's name.
pub fn tile_url(base_url: &str, layer: LayerType, node: VNode) -> (r: String)
    ensures
        r@ == base_url@ + spec_tile_name(layer, node),
{
    let mut s = String::from_str(base_url);
    let name = tile_name(layer, node);
    s.append(name.as_str());
    s
}

pub open spec fn spec_is_downloadable(layer: LayerType) -> bool {
    layer == LayerType::Albedo || layer == LayerType::Heightmaps || layer == LayerType::Roughness
}

/// Whether a tile of this layer that is missing on disk can be fetched from
/// the remote store.
pub fn is_downloadable(layer: LayerType) -> (r: bool)
    ensures
        r == spec_is_downloadable(layer),
{
    match layer {
        LayerType::Albedo | LayerType::Heightmaps | LayerType::Roughness => true,
        _ => false,
    }
}

/// Where `read_tile` takes a tile from.
#[derive(Clone, Copy, PartialEq, Eq, Structural, Debug)]
pub enum TileSource {
    /// The file is on disk.
    Disk,
    /// The file is missing and the layer is fetched from the remote store.
    Remote,
}

/// Where a tile is read from, given whether its file exists; a missing tile
/// of a layer that is not downloaded is an error.
pub fn tile_source(layer: LayerType, node: VNode, exists: bool) -> (r: Result<TileSource, StoreError>)
    ensures
        exists ==> r == Ok::<TileSource, StoreError>(TileSource::Disk),
        !exists && spec_is_downloadable(layer) ==> r == Ok::<TileSource, StoreError>(TileSource::Remote),
        !exists && !spec_is_downloadable(layer) ==> r == Err::<TileSource, StoreError>(StoreError::TileMissing(layer, node)),
{
    if exists {
        Ok(TileSource::Disk)
    } else if is_downloadable(layer) {
        Ok(TileSource::Remote)
    } else {
        Err(StoreError::TileMissing(layer, node))
    }
}

/// The state a write leaves: `Base` for a base tile, else `Generated`.
pub fn written_state(base: bool) -> (r: TileState)
    ensures
        r == (if base { TileState::Base } else { TileState::Generated }),
{
    if base {
        TileState::Base
    } else {
        TileState::Generated
    }
}

/// The state of a tile given its record: `GpuOnly` when there is none.
pub fn tile_state(meta: Option<TileMeta>) -> (r: TileState)
    ensures
        r == (match meta {
            Some(m) => m.state,
            None => TileState::GpuOnly,
        }),
{
    match meta {
        Some(m) => m.state,
        None => TileState::GpuOnly,
    }
}

pub open spec fn spec_target_state(base: bool, exists: bool) -> TileState {
    if base && exists {
        TileState::Base
    } else if base {
        TileState::MissingBase
    } else if exists {
        TileState::Generated
    } else {
        TileState::Missing
    }
}

/// Reconciles the disk with the record: the state the tile is in, and the
/// record to write, if the stored one does not already say so.
pub fn reload_tile_state(stored: Option<TileMeta>, base: bool, exists: bool) -> (r: (
    TileState,
    Option<TileMeta>,
))
    ensures
        r.0 == spec_target_state(base, exists),
        r.1 == (match stored {
            Some(m) if m.state == spec_target_state(base, exists) => None,
            _ => Some(TileMeta { crc32: 0, state: spec_target_state(base, exists) }),
        }),
{
    let target = if base && exists {
        TileState::Base
    } else if base {
        TileState::MissingBase
    } else if exists {
        TileState::Generated
    } else {
        TileState::Missing
    };
    if let Some(m) = stored {
        if m.state == target {
            return (target, None);
        }
    }
    (target, Some(TileMeta { crc32: 0, state: target }))
}


/// The schema version this library writes.
pub const CURRENT_VERSION: i32 = 2;

pub open spec fn is_digit(c: char) -> bool {
    48 <= c as u32 <= 57
}

pub open spec fn all_digits(s: Seq<char>) -> bool {
    s.len() >= 1 && forall|i: int| 0 <= i < s.len() ==> is_digit(#[trigger] s[i])
}

/// The value of a string of decimal digits.
pub open spec fn digits_value(s: Seq<char>) -> int
    decreases s.len(),
{
    if s.len() == 0 {
        0
    } else {
        digits_value(s.drop_last()) * 10 + (s.last() as u32 - 48)
    }
}

/// An optional sign followed by decimal digits, and its value.
pub open spec fn spec_parse_int(s: Seq<char>) -> Option<int> {
    if s.len() >= 1 && s[0] == '-' && all_digits(s.drop_first()) {
        Some(-digits_value(s.drop_first()))
    } else if s.len() >= 1 && s[0] == '+' && all_digits(s.drop_first()) {
        Some(digits_value(s.drop_first()))
    } else if all_digits(s) {
        Some(digits_value(s))
    } else {
        None
    }
}

pub open spec fn spec_parse_i32(s: Seq<char>) -> Option<i32> {
    match spec_parse_int(s) {
        Some(v) => if i32::MIN <= v <= i32::MAX {
            Some(v as i32)
        } else {
            None
        },
        None => None,
    }
}

/// Relies on `str::parse::<i32>`: it accepts an optional `+` or `-` followed
/// by one or more ASCII digits whose value fits in an `i32`, and fails on
/// anything else.
#[verifier::external_body]
fn parse_i32(s: &str) -> (r: Option<i32>)
    ensures
        r == spec_parse_i32(s@),
{
    s.parse::<i32>().ok()
}

/// The schema version of a database, from the text stored under its
/// `version` key: a database without one is taken to be current, and text
/// that is not an integer makes it corrupt.
pub fn stored_version(stored: Option<&str>) -> (r: Result<i32, StoreError>)
    ensures
        stored is None ==> r == Ok::<i32, StoreError>(CURRENT_VERSION),
        stored matches Some(s) ==> r == match spec_parse_i32(s@) {
            Some(v) => Ok::<i32, StoreError>(v),
            None => Err::<i32, StoreError>(StoreError::DbCorrupt),
        },
{
    match stored {
        None => Ok(CURRENT_VERSION),
        Some(s) => match parse_i32(s) {
            Some(v) => Ok(v),
            None => Err(StoreError::DbCorrupt),
        },
    }
}

/// Whether opening a database must first drop its `tiles` and `textures`
/// trees: it must when the stored version is older than the current one.
pub fn needs_migration(stored: Option<&str>) -> (r: Result<bool, StoreError>)
    ensures
        stored is None ==> r == Ok::<bool, StoreError>(false),
        stored matches Some(s) ==> r == match spec_parse_i32(s@) {
            Some(v) => Ok::<bool, StoreError>(v < CURRENT_VERSION),
            None => Err::<bool, StoreError>(StoreError::DbCorrupt),
        },
{
    let v = stored_version(stored)?;
    Ok(v < CURRENT_VERSION)
}

/// The text written under the `version` key when a database is opened.
pub fn version_text() -> (r: String)
    ensures
        r@ == decimal(CURRENT_VERSION as nat),
        r@ == "2"@,
{
    let mut s = String::new();
    push_decimal(&mut s, CURRENT_VERSION as u64);
    proof {
        reveal_strlit("2");
        assert(decimal(2) =~= "2"@);
    }
    s
}


/// Whether opening a database whose `version` key holds `stored` drops its
/// trees; `None` when the stored text is not an integer.
pub open spec fn spec_migrates(stored: Option<Seq<char>>) -> Option<bool> {
    match stored {
        None => Some(false),
        Some(s) => match spec_parse_i32(s) {
            Some(v) => Some(v < CURRENT_VERSION),
            None => None,
        },
    }
}

/// The version text and the `tiles` and `textures` trees a database holds
/// after it is opened; `None` when it is corrupt.
pub open spec fn spec_opened(
    stored: Option<Seq<char>>,
    tiles: Map<Seq<u8>, Seq<u8>>,
    textures: Map<Seq<u8>, Seq<u8>>,
) -> Option<(Seq<char>, Map<Seq<u8>, Seq<u8>>, Map<Seq<u8>, Seq<u8>>)> {
    match spec_migrates(stored) {
        Some(true) => Some(("2"@, Map::empty(), Map::empty())),
        Some(false) => Some(("2"@, tiles, textures)),
        None => None,
    }
}

/// What opening a database does: whether to drop the `tiles` and
/// `textures` trees, and the text to write under its `version` key.
pub fn open_plan(stored: Option<&str>) -> (r: Result<(bool, String), StoreError>)
    ensures
        match spec_migrates(
            match stored {
                Some(s) => Some(s@),
                None => None,
            },
        ) {
            Some(m) => r matches Ok((drop, text)) && drop == m && text@ == "2"@,
            None => r == Err::<(bool, String), StoreError>(StoreError::DbCorrupt),
        },
{
    match needs_migration(stored) {
        Ok(drop) => Ok((drop, version_text())),
        Err(e) => Err(e),
    }
}

/// Opening a database of an older schema empties both trees and writes the
/// current version; opening it again keeps it so.
pub proof fn lemma_migration(stored: Seq<char>, tiles: Map<Seq<u8>, Seq<u8>>, textures: Map<Seq<u8>, Seq<u8>>)
    requires
        spec_parse_i32(stored) matches Some(v) && v < CURRENT_VERSION,
    ensures
        spec_opened(Some(stored), tiles, textures) == Some(("2"@, Map::<Seq<u8>, Seq<u8>>::empty(), Map::<Seq<u8>, Seq<u8>>::empty())),
        spec_opened(Some("2"@), Map::empty(), Map::empty()) == Some(("2"@, Map::<Seq<u8>, Seq<u8>>::empty(), Map::<Seq<u8>, Seq<u8>>::empty())),
{
    reveal_strlit("2");
    reveal_with_fuel(digits_value, 2);
    assert(all_digits("2"@));
    assert("2"@.drop_last() =~= Seq::<char>::empty());
    assert(digits_value("2"@) == 2);
}


/// Whether a remote fetch answered with a success status (2xx); any other
/// status makes the fetch fail.
pub fn download_succeeded(status: u16) -> (r: bool)
    ensures
        r == (200 <= status < 300),
{
    200 <= status && status < 300
}

} // verus!
