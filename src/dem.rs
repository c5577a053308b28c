//! Sources of digital elevation models: the names of their tiles, where they
//! are found, and the decoding of their samples.

use crate::text::{padded, push_padded};
use vstd::prelude::*;
use vstd::string::{StrSliceExecFns, StringExecFns};

verus! {

/// A DEM file could not be read as one.
#[derive(Clone, Copy, PartialEq, Eq, Structural, Debug)]
pub struct DemParseError;

/// Which data source to use for digital elevation models, with the
/// directory that holds its tiles.
#[derive(Clone, Debug)]
pub enum DemSource {
    /// Shuttle Radar Topography Mission 3 arc-second data, available between
    /// 60 degrees north and 56 degrees south.
    Srtm90m(String),
    /// NASADEM.
    Nasadem(String),
}

/// Samples along each side of an SRTM3 tile.
pub const SRTM3_RESOLUTION: usize = 1201;

pub open spec fn hemisphere(v: i16, pos: char, neg: char) -> Seq<char> {
    if v >= 0 {
        seq![pos]
    } else {
        seq![neg]
    }
}

pub open spec fn magnitude(v: i16) -> nat {
    if v >= 0 {
        v as nat
    } else {
        (-v) as nat
    }
}

/// `dir` joined with `name` by a path separator, unless it is empty or
/// already ends with one.
pub open spec fn spec_join(dir: Seq<char>, name: Seq<char>) -> Seq<char> {
    if dir.len() == 0 {
        name
    } else if dir.last() == '/' {
        dir + name
    } else {
        dir + "/"@ + name
    }
}

impl DemSource {
    pub open spec fn spec_directory(&self) -> Seq<char> {
        match self {
            DemSource::Srtm90m(p) => p@,
            DemSource::Nasadem(p) => p@,
        }
    }

    /// The file name of the tile whose lower left corner is at the given
    /// whole degrees.
    pub open spec fn spec_tile_name(&self, latitude: i16, longitude: i16) -> Seq<char> {
        let ns = hemisphere(latitude, 'n', 's');
        let ew = hemisphere(longitude, 'e', 'w');
        let lat = padded(magnitude(latitude), 2);
        let lon = padded(magnitude(longitude), 3);
        match self {
            DemSource::Srtm90m(_) => ns + lat + "_"@ + ew + lon + ".hgt.sz"@,
            DemSource::Nasadem(_) => "NASADEM_HGT_"@ + ns + lat + ew + lon + ".zip"@,
        }
    }

    /// Where the tiles of this source are downloaded from.
    pub fn url_str(&self) -> (r: &'static str)
        ensures
            self is Srtm90m ==> r@ == "https://opentopography.s3.sdsc.edu/raster/SRTM_GL3/SRTM_GL3_srtm/"@,
            self is Nasadem ==> r@ == "https://e4ftl01.cr.usgs.gov/MEASURES/NASADEM_HGT.001/2000.02.11/NASADEM_HGT_"@,
    {
        match self {
            DemSource::Srtm90m(_) => "https://opentopography.s3.sdsc.edu/raster/SRTM_GL3/SRTM_GL3_srtm/",
            DemSource::Nasadem(_) => "https://e4ftl01.cr.usgs.gov/MEASURES/NASADEM_HGT.001/2000.02.11/NASADEM_HGT_",
        }
    }

    /// The approximate resolution of data from this source in meters.
    pub fn resolution(&self) -> (r: u32)
        ensures
            r == (if self is Srtm90m { 90u32 } else { 30u32 }),
    {
        match self {
            DemSource::Srtm90m(_) => 90,
            DemSource::Nasadem(_) => 30,
        }
    }

    /// The file name of the tile whose lower left corner is at the given
    /// whole degrees.
    pub fn tile_name(&self, latitude: i16, longitude: i16) -> (r: String)
        ensures
            r@ == self.spec_tile_name(latitude, longitude),
    {
        let ns = if latitude >= 0 { "n" } else { "s" };
        let ew = if longitude >= 0 { "e" } else { "w" };
        let lat: u16 = if latitude >= 0 { latitude as u16 } else { (-(latitude as i32)) as u16 };
        let lon: u16 = if longitude >= 0 { longitude as u16 } else { (-(longitude as i32)) as u16 };
        proof {
            reveal_strlit("n");
            reveal_strlit("s");
            reveal_strlit("e");
            reveal_strlit("w");
        }
        let mut s = String::new();
        match self {
            DemSource::Srtm90m(_) => {
                s.append(ns);
                push_padded(&mut s, lat, 2);
                s.append("_");
                s.append(ew);
                push_padded(&mut s, lon, 3);
                s.append(".hgt.sz");
            },
            DemSource::Nasadem(_) => {
                s.append("NASADEM_HGT_");
                s.append(ns);
                push_padded(&mut s, lat, 2);
                s.append(ew);
                push_padded(&mut s, lon, 3);
                s.append(".zip");
            },
        }
        assert(s@ =~= self.spec_tile_name(latitude, longitude));
        s
    }

    /// Whether the source has a tile at the given corner, going by the list
    /// of the source's files.
    pub fn tile_should_exist(&self, latitude: i16, longitude: i16, listed: &Vec<String>) -> (r: bool)
        ensures
            r == exists|i: int| 0 <= i < listed@.len() && (#[trigger] listed@[i])@ == self.spec_tile_name(latitude, longitude),
    {
        let name = self.tile_name(latitude, longitude);
        for i in 0..listed.len()
            invariant
                name@ == self.spec_tile_name(latitude, longitude),
                forall|j: int| 0 <= j < i ==> (#[trigger] listed@[j])@ != name@,
        {
            if listed[i] == name {
                return true;
            }
        }
        false
    }

    /// The path of the tile's file in the source's directory.
    pub fn filename(&self, latitude: i16, longitude: i16) -> (r: String)
        ensures
            r@ == spec_join(self.spec_directory(), self.spec_tile_name(latitude, longitude)),
    {
        let dir = match self {
            DemSource::Srtm90m(p) => p,
            DemSource::Nasadem(p) => p,
        };
        let name = self.tile_name(latitude, longitude);
        let n = dir.as_str().unicode_len();
        let mut s = String::from_str(dir.as_str());
        if n == 0 {
            return name;
        } else if dir.as_str().get_char(n - 1) != '/' {
            s.append("/");
        }
        s.append(name.as_str());
        s
    }
}

/// A big-endian 16-bit two's complement integer.
pub open spec fn be_i16(hi: u8, lo: u8) -> i16 {
    let v = hi as int * 256 + lo as int;
    if v >= 32768 {
        (v - 65536) as i16
    } else {
        v as i16
    }
}

/// The elevation of an SRTM3 sample: the void marker -32768 reads as 0.
pub open spec fn srtm3_elevation(hi: u8, lo: u8) -> i16 {
    if be_i16(hi, lo) == -32768 {
        0
    } else {
        be_i16(hi, lo)
    }
}

/// Decodes an uncompressed SRTM3 HGT file: 1201 x 1201 big-endian 16-bit
/// samples, row by row from the north-west corner.
pub fn decode_srtm3_hgt(hgt: &[u8]) -> (r: Result<Vec<i16>, DemParseError>)
    ensures
        r is Err <==> hgt@.len() != SRTM3_RESOLUTION * SRTM3_RESOLUTION * 2,
        r matches Ok(v) ==> v@.len() == SRTM3_RESOLUTION * SRTM3_RESOLUTION && forall|i: int|
            0 <= i < v@.len() ==> #[trigger] v@[i] == srtm3_elevation(hgt@[2 * i], hgt@[2 * i + 1]),
{
    let count: usize = SRTM3_RESOLUTION * SRTM3_RESOLUTION;
    if hgt.len() != count * 2 {
        return Err(DemParseError);
    }
    let mut elevations: Vec<i16> = Vec::with_capacity(count);
    for i in 0..count
        invariant
            count == SRTM3_RESOLUTION * SRTM3_RESOLUTION,
            hgt@.len() == count * 2,
            elevations@.len() == i,
            forall|j: int| 0 <= j < i ==> #[trigger] elevations@[j] == srtm3_elevation(hgt@[2 * j], hgt@[2 * j + 1]),
    {
        let (hi, lo) = (hgt[2 * i], hgt[2 * i + 1]);
        let v: u32 = hi as u32 * 256 + lo as u32;
        let h: i16 = if v >= 32768 { (v as i32 - 65536) as i16 } else { v as i16 };
        elevations.push(if h == -32768 { 0 } else { h });
    }
    Ok(elevations)
}

} // verus!
