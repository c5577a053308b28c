//! Configuration of a generated map: mesh and texture quality, the layers it
//! derives from them, and the pure steps of tile generation.

use crate::dem::DemSource;
use crate::layer::{LayerParams, LayerType, TextureFormat};
use crate::text::{decimal, push_decimal};
use vstd::prelude::*;
use vstd::std_specs::bits::{axiom_u16_trailing_zeros, u16_trailing_zeros};
use vstd::string::StringExecFns;

verus! {

/// Cells of border kept around each heightmap tile, so that derivatives at
/// the tile's edge stay correct.
pub const SKIRT: u16 = 4;

/// The level whose cells are about one kilometre across.
pub const LEVEL_1_KM: u8 = 13;

/// How much detail the terrain mesh should have.
#[derive(Clone, Copy, PartialEq, Eq, Structural, Debug)]
pub enum VertexQuality {
    /// Up to about 4M triangles per frame.
    High,
    /// About 1M triangles per frame.
    Medium,
    /// A couple hundred thousand triangles per frame.
    Low,
}

proof fn lemma_trailing_zeros(v: u16, k: u16)
    requires
        k < 16,
        v == 1u16 << k,
    ensures
        u16_trailing_zeros(v) == k,
{
    axiom_u16_trailing_zeros(v);
    let t = u16_trailing_zeros(v) as u16;
    assert(v != 0) by (bit_vector)
        requires
            k < 16,
            v == 1u16 << k,
    ;
    assert((v >> t) & 1u16 == 1u16);
    if t < k {
        assert((v >> t) & 1u16 == 0u16) by (bit_vector)
            requires
                t < k < 16,
                v == 1u16 << k,
        ;
    }
    if t > k {
        assert((v >> k) & 1u16 == 1u16) by (bit_vector)
            requires
                k < 16,
                v == 1u16 << k,
        ;
    }
}

impl VertexQuality {
    pub open spec fn spec_resolution(&self) -> u16 {
        match self {
            VertexQuality::Low => 33,
            VertexQuality::Medium => 65,
            VertexQuality::High => 129,
        }
    }

    pub open spec fn spec_resolution_log2(&self) -> u32 {
        match self {
            VertexQuality::Low => 5,
            VertexQuality::Medium => 6,
            VertexQuality::High => 7,
        }
    }

    /// Vertices along each side of a mesh tile: a power of two plus one.
    #[verifier::when_used_as_spec(spec_resolution)]
    pub fn resolution(&self) -> (r: u16)
        ensures
            r == self.spec_resolution(),
    {
        match self {
            VertexQuality::Low => 33,
            VertexQuality::Medium => 65,
            VertexQuality::High => 129,
        }
    }

    /// The base-2 logarithm of the number of cells along a mesh tile's side.
    pub fn resolution_log2(&self) -> (r: u32)
        ensures
            r == self.spec_resolution_log2(),
            1u32 << r == self.spec_resolution() - 1,
    {
        let cells = self.resolution() - 1;
        proof {
            let k = self.spec_resolution_log2() as u16;
            assert(1u16 << 5u16 == 32 && 1u16 << 6u16 == 64 && 1u16 << 7u16 == 128) by (bit_vector);
            assert(1u32 << 5u32 == 32 && 1u32 << 6u32 == 64 && 1u32 << 7u32 == 128) by (bit_vector);
            lemma_trailing_zeros(cells, k);
        }
        cells.trailing_zeros()
    }

    /// Short tag of the quality in map names.
    pub fn as_str(&self) -> (r: &'static str)
        ensures
            r@ == (match self {
                VertexQuality::Low => "vl"@,
                VertexQuality::Medium => "vm"@,
                VertexQuality::High => "vh"@,
            }),
    {
        match self {
            VertexQuality::Low => "vl",
            VertexQuality::Medium => "vm",
            VertexQuality::High => "vh",
        }
    }
}

/// What resolution to use for terrain textures.
#[derive(Clone, Copy, PartialEq, Eq, Structural, Debug)]
pub enum TextureQuality {
    /// Suitable for a 4K display.
    Ultra,
    /// Good for resolutions up to 1080p.
    High,
    /// About half the quality of `High`.
    Low,
}

impl TextureQuality {
    pub open spec fn spec_resolution(&self) -> u16 {
        match self {
            TextureQuality::Low => 256,
            TextureQuality::High => 512,
            TextureQuality::Ultra => 1024,
        }
    }

    /// Texels along each side of a texture tile.
    #[verifier::when_used_as_spec(spec_resolution)]
    pub fn resolution(&self) -> (r: u16)
        ensures
            r == self.spec_resolution(),
    {
        match self {
            TextureQuality::Low => 256,
            TextureQuality::High => 512,
            TextureQuality::Ultra => 1024,
        }
    }

    /// Short tag of the quality in map names.
    pub fn as_str(&self) -> (r: &'static str)
        ensures
            r@ == (match self {
                TextureQuality::Low => "tl"@,
                TextureQuality::High => "th"@,
                TextureQuality::Ultra => "tu"@,
            }),
    {
        match self {
            TextureQuality::Low => "tl",
            TextureQuality::High => "th",
            TextureQuality::Ultra => "tu",
        }
    }
}

/// The settings from which a map is built.
#[derive(Debug)]
pub struct MapFileBuilder {
    pub source: DemSource,
    pub vertex_quality: VertexQuality,
    pub texture_quality: TextureQuality,
}

/// Texels along each side of a heightmap tile: the texture resolution, one
/// more for grid registration, and the skirt on both sides.
pub open spec fn spec_heightmap_resolution(t: TextureQuality) -> u16 {
    (t.spec_resolution() + 1 + 2 * SKIRT) as u16
}

/// `r` is the base-2 logarithm of `v`.
pub open spec fn is_log2(v: u32, r: u32) -> bool {
    r < 32 && 1u32 << r == v
}

impl MapFileBuilder {
    /// The defaults: SRTM 90 m elevation data from the working directory,
    /// high vertex quality and high texture quality.
    pub fn new() -> (r: MapFileBuilder)
        ensures
            r.source matches DemSource::Srtm90m(p) && p@.len() == 0,
            r.vertex_quality == VertexQuality::High,
            r.texture_quality == TextureQuality::High,
    {
        MapFileBuilder {
            source: DemSource::Srtm90m(String::new()),
            vertex_quality: VertexQuality::High,
            texture_quality: TextureQuality::High,
        }
    }

    /// Where the elevation data comes from.
    pub fn source(self, source: DemSource) -> (r: MapFileBuilder)
        ensures
            r.source == source,
            r.vertex_quality == self.vertex_quality,
            r.texture_quality == self.texture_quality,
    {
        MapFileBuilder { source, ..self }
    }

    /// How detailed the terrain mesh should be.
    pub fn vertex_quality(self, quality: VertexQuality) -> (r: MapFileBuilder)
        ensures
            r.source == self.source,
            r.vertex_quality == quality,
            r.texture_quality == self.texture_quality,
    {
        MapFileBuilder { vertex_quality: quality, ..self }
    }

    /// How high resolution the terrain's textures should be.
    pub fn texture_quality(self, quality: TextureQuality) -> (r: MapFileBuilder)
        ensures
            r.source == self.source,
            r.vertex_quality == self.vertex_quality,
            r.texture_quality == quality,
    {
        MapFileBuilder { texture_quality: quality, ..self }
    }

    pub open spec fn spec_name(&self) -> Seq<char> {
        decimal((if self.source is Srtm90m { 90nat } else { 30nat })) + "m_"@ + (match self.vertex_quality {
            VertexQuality::Low => "vl"@,
            VertexQuality::Medium => "vm"@,
            VertexQuality::High => "vh"@,
        }) + "_"@ + (match self.texture_quality {
            TextureQuality::Low => "tl"@,
            TextureQuality::High => "th"@,
            TextureQuality::Ultra => "tu"@,
        })
    }

    /// `{source resolution}m_{vertex quality}_{texture quality}`.
    pub fn name(&self) -> (r: String)
        ensures
            r@ == self.spec_name(),
    {
        let mut s = String::new();
        push_decimal(&mut s, self.source.resolution() as u64);
        s.append("m_");
        s.append(self.vertex_quality.as_str());
        s.append("_");
        s.append(self.texture_quality.as_str());
        s
    }

    /// The map's file, relative to the data directory.
    pub fn filename(&self) -> (r: String)
        ensures
            r@ == "maps/"@ + self.spec_name(),
    {
        let mut s = String::from_str("maps/");
        let name = self.name();
        s.append(name.as_str());
        s
    }

    /// Texels along each side of a heightmap tile.
    pub fn heightmap_resolution(&self) -> (r: u16)
        ensures
            r == spec_heightmap_resolution(self.texture_quality),
    {
        self.texture_quality.resolution() + 1 + 2 * SKIRT
    }

    /// The parameters of the layers the map holds, by layer index:
    /// heightmaps, displacements, albedo and normals.
    pub fn layers(&self) -> (r: Vec<LayerParams>)
        ensures
            r@ == seq![
                LayerParams {
                    layer_type: LayerType::Heightmaps,
                    texture_resolution: spec_heightmap_resolution(self.texture_quality) as u32,
                    texture_border_size: SKIRT as u32,
                    texture_format: TextureFormat::R32F,
                },
                LayerParams {
                    layer_type: LayerType::Displacements,
                    texture_resolution: self.vertex_quality.spec_resolution() as u32,
                    texture_border_size: 0,
                    texture_format: TextureFormat::RGBA32F,
                },
                LayerParams {
                    layer_type: LayerType::Albedo,
                    texture_resolution: (spec_heightmap_resolution(self.texture_quality) - 5) as u32,
                    texture_border_size: (SKIRT - 2) as u32,
                    texture_format: TextureFormat::RGBA8,
                },
                LayerParams {
                    layer_type: LayerType::Normals,
                    texture_resolution: (spec_heightmap_resolution(self.texture_quality) - 5) as u32,
                    texture_border_size: (SKIRT - 2) as u32,
                    texture_format: TextureFormat::RG8,
                },
            ],
            forall|i: int| 0 <= i < r@.len() ==> (#[trigger] r@[i]).layer_type.spec_index() == i,
    {
        let heightmap_resolution = self.heightmap_resolution();
        let colormap_resolution = heightmap_resolution - 5;
        let normalmap_resolution = heightmap_resolution - 5;
        let r = vec![
            LayerParams {
                layer_type: LayerType::Heightmaps,
                texture_resolution: heightmap_resolution as u32,
                texture_border_size: SKIRT as u32,
                texture_format: TextureFormat::R32F,
            },
            LayerParams {
                layer_type: LayerType::Displacements,
                texture_resolution: self.vertex_quality.resolution() as u32,
                texture_border_size: 0,
                texture_format: TextureFormat::RGBA32F,
            },
            LayerParams {
                layer_type: LayerType::Albedo,
                texture_resolution: colormap_resolution as u32,
                texture_border_size: (SKIRT - 2) as u32,
                texture_format: TextureFormat::RGBA8,
            },
            LayerParams {
                layer_type: LayerType::Normals,
                texture_resolution: normalmap_resolution as u32,
                texture_border_size: (SKIRT - 2) as u32,
                texture_format: TextureFormat::RG8,
            },
        ];
        assert(r@ =~= seq![r@[0], r@[1], r@[2], r@[3]]);
        r
    }

    /// The deepest level at which heightmaps are stored rather than derived.
    pub fn max_heights_present_level(&self) -> (r: u8)
        ensures
            r == LEVEL_1_KM - self.vertex_quality.spec_resolution_log2(),
    {
        LEVEL_1_KM - self.vertex_quality.resolution_log2() as u8
    }

    /// The deepest level at which textures are stored: fewer levels than the
    /// heightmaps by the base-2 logarithm of texels per mesh cell.
    pub fn max_texture_present_level(&self) -> (r: u8)
        ensures
            r <= LEVEL_1_KM - self.vertex_quality.spec_resolution_log2(),
            is_log2(
                (self.texture_quality.spec_resolution() as int / (self.vertex_quality.spec_resolution() as int
                    - 1)) as u32,
                (LEVEL_1_KM - self.vertex_quality.spec_resolution_log2() - r) as u32,
            ),
    {
        let ratio: u16 = self.texture_quality.resolution() / (self.vertex_quality.resolution() - 1);
        proof {
            assert(1u16 << 1u16 == 2 && 1u16 << 2u16 == 4 && 1u16 << 3u16 == 8 && 1u16 << 4u16 == 16
                && 1u16 << 5u16 == 32) by (bit_vector);
            assert(1u32 << 1u32 == 2 && 1u32 << 2u32 == 4 && 1u32 << 3u32 == 8 && 1u32 << 4u32 == 16
                && 1u32 << 5u32 == 32) by (bit_vector);
            let t = self.texture_quality.spec_resolution() as int;
            let v = self.vertex_quality.spec_resolution() as int - 1;
            assert(t == 256 || t == 512 || t == 1024);
            assert(v == 32 || v == 64 || v == 128);
            assert(ratio == t / v);
            assert(ratio == 2 || ratio == 4 || ratio == 8 || ratio == 16 || ratio == 32) by {
                if v == 32 {
                    assert(t / 32 == 8 || t / 32 == 16 || t / 32 == 32);
                } else if v == 64 {
                    assert(t / 64 == 4 || t / 64 == 8 || t / 64 == 16);
                } else {
                    assert(t / 128 == 2 || t / 128 == 4 || t / 128 == 8);
                }
            }
            let log: u16 = if ratio == 2 {
                1
            } else if ratio == 4 {
                2
            } else if ratio == 8 {
                3
            } else if ratio == 16 {
                4
            } else {
                5
            };
            lemma_trailing_zeros(ratio, log);
        }
        let k = ratio.trailing_zeros();
        assert(is_log2(ratio as u32, k));
        let heights = self.max_heights_present_level();
        heights - k as u8
    }
}

/// A heightmap tile of `resolution` x `resolution` samples, all of height
/// zero: little-endian 32-bit floats, whose bytes are all zero.
pub fn blank_heightmap(resolution: u16) -> (r: Vec<u8>)
    requires
        4 * resolution * resolution <= usize::MAX,
    ensures
        r@.len() == 4 * resolution * resolution,
        forall|i: int| 0 <= i < r@.len() ==> #[trigger] r@[i] == 0,
{
    let n: usize = 4 * resolution as usize * resolution as usize;
    vec![0u8; n]
}

/// The rank of the `j`-th smallest of `len` samples, spread over a byte.
pub open spec fn rank_byte(j: int, len: int) -> int {
    j * 256 / len
}

/// `order` lists each of `0..len` once.
pub open spec fn is_permutation(order: Seq<usize>, len: int) -> bool {
    &&& order.len() == len
    &&& forall|j: int| 0 <= j < len ==> #[trigger] order[j] < len
    &&& forall|j: int, k: int| 0 <= j < len && 0 <= k < len && j != k ==> order[j] != order[k]
    &&& forall|p: int| 0 <= p < len ==> #[trigger] lists(order, p)
}

/// `order` lists `p`.
pub open spec fn lists(order: Seq<usize>, p: int) -> bool {
    exists|j: int| 0 <= j < order.len() && order[j] == p
}

/// Packs four noise octaves into one RGBA8 texture of `len` texels. For each
/// channel `i`, `orders[i]` lists the texels from the smallest sample of
/// octave `i` to the largest, ties in texel order; texel `orders[i][j]` gets
/// the rank `j * 256 / len` in channel `i`.
pub fn pack_noise_ranks(orders: &Vec<Vec<usize>>, len: usize) -> (r: Vec<u8>)
    requires
        orders@.len() == 4,
        len > 0,
        len * 256 <= usize::MAX,
        forall|i: int| 0 <= i < 4 ==> is_permutation(#[trigger] orders@[i]@, len as int),
    ensures
        r@.len() == 4 * len,
        forall|i: int, j: int|
            0 <= i < 4 && 0 <= j < len ==> r@[4 * (#[trigger] orders@[i]@[j]) + i] == rank_byte(j, len as int)
                && orders@[i]@[j] < len,
{
    let mut heights: Vec<u8> = vec![0u8; 4 * len];
    for i in 0..4
        invariant
            orders@.len() == 4,
            len > 0,
            len * 256 <= usize::MAX,
            forall|i: int| 0 <= i < 4 ==> is_permutation(#[trigger] orders@[i]@, len as int),
            heights@.len() == 4 * len,
            forall|c: int, j: int|
                0 <= c < i && 0 <= j < len ==> heights@[4 * (#[trigger] orders@[c]@[j]) + c] == rank_byte(j, len as int)
                    && orders@[c]@[j] < len,
    {
        let order = &orders[i];
        assert(is_permutation(order@, len as int));
        for j in 0..len
            invariant
                orders@.len() == 4,
                len > 0,
                len * 256 <= usize::MAX,
                i < 4,
                order == &orders@[i as int],
                is_permutation(order@, len as int),
                forall|i: int| 0 <= i < 4 ==> is_permutation(#[trigger] orders@[i]@, len as int),
                heights@.len() == 4 * len,
                forall|c: int, k: int|
                    0 <= c < i && 0 <= k < len ==> heights@[4 * (#[trigger] orders@[c]@[k]) + c] == rank_byte(k, len as int)
                        && orders@[c]@[k] < len,
                forall|k: int| 0 <= k < j ==> heights@[4 * (#[trigger] order@[k]) + i] == rank_byte(k, len as int),
        {
            let p = order[j];
            assert(p < len);
            assert((j * 256) as int / len as int <= 255) by (nonlinear_arith)
                requires
                    j < len,
                    len > 0,
            ;
            assert(j * 256 <= len * 256) by (nonlinear_arith)
                requires
                    j < len,
            ;
            let value = (j * 256 / len) as u8;
            heights.set(p * 4 + i, value);
        }
    }
    heights
}

/// Texel `p` of channel `i` of a packed RGBA8 texture holds the rank of the
/// position at which `order` lists `p`.
pub open spec fn holds_rank(texture: Seq<u8>, order: Seq<usize>, len: int, i: int, p: int) -> bool {
    exists|j: int| 0 <= j < len && order[j] == p && texture[4 * p + i] == rank_byte(j, len)
}

/// Each channel of the packed noise is a permutation of the ranks: texel `p`
/// of channel `i` holds the rank of the position at which `orders[i]` lists
/// `p`, and each position lists one texel.
pub proof fn lemma_noise_channels_are_ranks(orders: Seq<Seq<usize>>, len: int, texture: Seq<u8>)
    requires
        orders.len() == 4,
        len > 0,
        forall|i: int| 0 <= i < 4 ==> is_permutation(#[trigger] orders[i], len),
        texture.len() == 4 * len,
        forall|i: int, j: int|
            0 <= i < 4 && 0 <= j < len ==> texture[4 * (#[trigger] orders[i][j]) + i] == rank_byte(j, len),
    ensures
        forall|i: int, p: int| 0 <= i < 4 && 0 <= p < len ==> #[trigger] holds_rank(texture, orders[i], len, i, p),
{
    assert forall|i: int, p: int| 0 <= i < 4 && 0 <= p < len implies #[trigger] holds_rank(texture, orders[i], len, i, p) by {
        assert(is_permutation(orders[i], len));
        assert(lists(orders[i], p));
        let j = choose|j: int| 0 <= j < orders[i].len() && orders[i][j] == p;
        assert(texture[4 * orders[i][j] + i] == rank_byte(j, len));
    }
}


/// The packed noise depends on the orders alone: two textures that both
/// meet the contract of `pack_noise_ranks` for the same orders are equal.
pub proof fn lemma_noise_is_stable(orders: Seq<Seq<usize>>, len: int, a: Seq<u8>, b: Seq<u8>)
    requires
        orders.len() == 4,
        len > 0,
        forall|i: int| 0 <= i < 4 ==> is_permutation(#[trigger] orders[i], len),
        a.len() == 4 * len,
        b.len() == 4 * len,
        forall|i: int, j: int|
            0 <= i < 4 && 0 <= j < len ==> a[4 * (#[trigger] orders[i][j]) + i] == rank_byte(j, len),
        forall|i: int, j: int|
            0 <= i < 4 && 0 <= j < len ==> b[4 * (#[trigger] orders[i][j]) + i] == rank_byte(j, len),
    ensures
        a == b,
{
    assert forall|x: int| 0 <= x < a.len() implies a[x] == b[x] by {
        let i = x % 4;
        let p = x / 4;
        assert(is_permutation(orders[i], len));
        assert(lists(orders[i], p));
        let j = choose|j: int| 0 <= j < orders[i].len() && orders[i][j] == p;
        assert(4 * orders[i][j] + i == x);
        assert(a[4 * orders[i][j] + i] == rank_byte(j, len));
        assert(b[4 * orders[i][j] + i] == rank_byte(j, len));
    }
    assert(a =~= b);
}


/// Reordering a sequence keeps its multiset: `t` lists the elements of `s`
/// at the distinct positions `f`.
proof fn lemma_reordered_multiset(s: Seq<u8>, t: Seq<u8>, f: Seq<int>)
    requires
        s.len() == t.len(),
        f.len() == t.len(),
        forall|j: int| 0 <= j < f.len() ==> 0 <= #[trigger] f[j] < s.len() && s[f[j]] == t[j],
        forall|j: int, k: int| 0 <= j < f.len() && 0 <= k < f.len() && j != k ==> #[trigger] f[j] != #[trigger] f[k],
    ensures
        s.to_multiset() == t.to_multiset(),
    decreases t.len(),
{
    broadcast use vstd::seq_lib::group_to_multiset_ensures;

    if t.len() == 0 {
        assert(s.to_multiset() =~= t.to_multiset());
    } else {
        let n = t.len() - 1;
        let p = f[n];
        let s2 = s.remove(p);
        let t2 = t.remove(n);
        let f2 = Seq::new(n as nat, |j: int| if f[j] < p { f[j] } else { f[j] - 1 });
        assert forall|j: int| 0 <= j < f2.len() implies 0 <= #[trigger] f2[j] < s2.len() && s2[f2[j]] == t2[j] by {
            assert(f[j] != f[n]);
        }
        assert forall|j: int, k: int| 0 <= j < f2.len() && 0 <= k < f2.len() && j != k implies #[trigger] f2[j]
            != #[trigger] f2[k] by {
            assert(f[j] != f[k]);
            assert(f[j] != p && f[k] != p);
        }
        lemma_reordered_multiset(s2, t2, f2);
        let x = t[n];
        assert(s[p] == x);
        vstd::seq_lib::to_multiset_remove(s, p);
        vstd::seq_lib::to_multiset_remove(t, n);
        vstd::seq_lib::to_multiset_contains(s, x);
        vstd::seq_lib::to_multiset_contains(t, x);
        assert(s.to_multiset().count(x) > 0);
        assert(t.to_multiset().count(x) > 0);
        assert(s.to_multiset() =~= t.to_multiset()) by {
            assert forall|v: u8| #[trigger] s.to_multiset().count(v) == t.to_multiset().count(v) by {
                assert(s.to_multiset().remove(x).count(v) == t.to_multiset().remove(x).count(v));
            }
        }
    }
}

/// Channel `i` of a packed RGBA8 texture of `len` texels.
pub open spec fn channel(texture: Seq<u8>, i: int, len: int) -> Seq<u8> {
    Seq::new(len as nat, |p: int| texture[4 * p + i])
}

/// The ranks of `len` samples, spread over a byte.
pub open spec fn ranks(len: int) -> Seq<u8> {
    Seq::new(len as nat, |j: int| rank_byte(j, len) as u8)
}

/// Each channel of the packed noise holds, as a multiset, exactly the ranks
/// `0, 256 / len, ..., 255`, once each.
pub proof fn lemma_noise_channel_multisets(orders: Seq<Seq<usize>>, len: int, texture: Seq<u8>)
    requires
        orders.len() == 4,
        len > 0,
        forall|i: int| 0 <= i < 4 ==> is_permutation(#[trigger] orders[i], len),
        texture.len() == 4 * len,
        forall|i: int, j: int|
            0 <= i < 4 && 0 <= j < len ==> texture[4 * (#[trigger] orders[i][j]) + i] == rank_byte(j, len),
    ensures
        forall|i: int| 0 <= i < 4 ==> (#[trigger] channel(texture, i, len)).to_multiset() == ranks(len).to_multiset(),
{
    assert forall|i: int| 0 <= i < 4 implies (#[trigger] channel(texture, i, len)).to_multiset() == ranks(len).to_multiset() by {
        let order = orders[i];
        assert(is_permutation(order, len));
        let f = Seq::new(len as nat, |j: int| order[j] as int);
        let c = channel(texture, i, len);
        assert forall|j: int| 0 <= j < f.len() implies 0 <= #[trigger] f[j] < c.len() && c[f[j]] == ranks(len)[j] by {
            assert(texture[4 * orders[i][j] + i] == rank_byte(j, len));
        }
        assert forall|j: int, k: int| 0 <= j < f.len() && 0 <= k < f.len() && j != k implies #[trigger] f[j] != #[trigger] f[k] by {
            assert(order[j] != order[k]);
        }
        lemma_reordered_multiset(c, ranks(len), f);
    }
}

} // verus!
