//! Metadata records of the tile store: how a record is keyed and encoded in
//! the database, and which records a scan of one layer selects.

use crate::layer::LayerType;
use crate::mapfile::{StoreError, TileMeta, TileState};
use crate::node::VNode;
use vstd::prelude::*;

verus! {

/// `v` in four bytes, least significant first.
pub open spec fn le_u32(v: u32) -> Seq<u8> {
    seq![(v & 0xff) as u8, ((v >> 8u32) & 0xff) as u8, ((v >> 16u32) & 0xff) as u8, ((v >> 24u32) & 0xff) as u8]
}

/// `v` in eight bytes, least significant first.
pub open spec fn le_u64(v: u64) -> Seq<u8> {
    seq![
        (v & 0xff) as u8,
        ((v >> 8u64) & 0xff) as u8,
        ((v >> 16u64) & 0xff) as u8,
        ((v >> 24u64) & 0xff) as u8,
        ((v >> 32u64) & 0xff) as u8,
        ((v >> 40u64) & 0xff) as u8,
        ((v >> 48u64) & 0xff) as u8,
        ((v >> 56u64) & 0xff) as u8,
    ]
}

/// The little-endian `u32` in `b` at `at`.
pub open spec fn read_u32(b: Seq<u8>, at: int) -> u32 {
    (b[at] as u32) | ((b[at + 1] as u32) << 8u32) | ((b[at + 2] as u32) << 16u32) | ((b[at + 3] as u32)
        << 24u32)
}

/// The little-endian `u64` in `b` at `at`.
pub open spec fn read_u64(b: Seq<u8>, at: int) -> u64 {
    (read_u32(b, at) as u64) | ((read_u32(b, at + 4) as u64) << 32u64)
}

/// Relies on bincode::serialize: with bincode's default options a pair of
/// integers is written as the two integers in turn, each little-endian in
/// its full width, and writing into a `Vec` does not fail.
#[verifier::external_body]
fn bincode_u32_u64(a: u32, b: u64) -> (r: Vec<u8>)
    ensures
        r@ == le_u32(a) + le_u64(b),
{
    match bincode::serialize(&(a, b)) {
        Ok(v) => v,
        Err(_) => Vec::new(),
    }
}

/// Relies on bincode::serialize, as above, for a pair of `u32`.
#[verifier::external_body]
fn bincode_u32_u32(a: u32, b: u32) -> (r: Vec<u8>)
    ensures
        r@ == le_u32(a) + le_u32(b),
{
    match bincode::serialize(&(a, b)) {
        Ok(v) => v,
        Err(_) => Vec::new(),
    }
}

/// Relies on bincode::deserialize: with bincode's default options a pair
/// (u32, u64) is read little-endian from the first 12 bytes; bytes after
/// them are ignored, and fewer bytes are an error.
#[verifier::external_body]
fn bincode_read_u32_u64(b: &[u8]) -> (r: Option<(u32, u64)>)
    ensures
        b@.len() >= 12 ==> r == Some((read_u32(b@, 0), read_u64(b@, 4))),
        b@.len() < 12 ==> r is None,
{
    bincode::deserialize::<(u32, u64)>(b).ok()
}

/// Relies on bincode::deserialize, as above, for a pair of `u32` read from
/// the first 8 bytes.
#[verifier::external_body]
fn bincode_read_u32_u32(b: &[u8]) -> (r: Option<(u32, u32)>)
    ensures
        b@.len() >= 8 ==> r == Some((read_u32(b@, 0), read_u32(b@, 4))),
        b@.len() < 8 ==> r is None,
{
    bincode::deserialize::<(u32, u32)>(b).ok()
}

proof fn lemma_le_u32(b: Seq<u8>, at: int)
    requires
        0 <= at,
        at + 4 <= b.len(),
    ensures
        le_u32(read_u32(b, at)) == b.subrange(at, at + 4),
{
    let (b0, b1, b2, b3) = (b[at], b[at + 1], b[at + 2], b[at + 3]);
    let v = read_u32(b, at);
    assert(v == (b0 as u32) | ((b1 as u32) << 8u32) | ((b2 as u32) << 16u32) | ((b3 as u32) << 24u32));
    assert((v & 0xff) as u8 == b0 && ((v >> 8u32) & 0xff) as u8 == b1 && ((v >> 16u32) & 0xff) as u8
        == b2 && ((v >> 24u32) & 0xff) as u8 == b3) by (bit_vector)
        requires
            v == (b0 as u32) | ((b1 as u32) << 8u32) | ((b2 as u32) << 16u32) | ((b3 as u32) << 24u32),
    ;
    assert(le_u32(v) =~= b.subrange(at, at + 4));
}

proof fn lemma_le_u64(b: Seq<u8>, at: int)
    requires
        0 <= at,
        at + 8 <= b.len(),
    ensures
        le_u64(read_u64(b, at)) == b.subrange(at, at + 8),
{
    lemma_le_u32(b, at);
    lemma_le_u32(b, at + 4);
    let lo = read_u32(b, at);
    let hi = read_u32(b, at + 4);
    let v = read_u64(b, at);
    assert(v == (lo as u64) | ((hi as u64) << 32u64));
    assert((v & 0xff) as u8 == (lo & 0xff) as u8 && ((v >> 8u64) & 0xff) as u8 == ((lo >> 8u32) & 0xff) as u8
        && ((v >> 16u64) & 0xff) as u8 == ((lo >> 16u32) & 0xff) as u8 && ((v >> 24u64) & 0xff) as u8 == ((lo
        >> 24u32) & 0xff) as u8 && ((v >> 32u64) & 0xff) as u8 == (hi & 0xff) as u8 && ((v >> 40u64) & 0xff) as u8
        == ((hi >> 8u32) & 0xff) as u8 && ((v >> 48u64) & 0xff) as u8 == ((hi >> 16u32) & 0xff) as u8 && ((v
        >> 56u64) & 0xff) as u8 == ((hi >> 24u32) & 0xff) as u8) by (bit_vector)
        requires
            v == (lo as u64) | ((hi as u64) << 32u64),
    ;
    assert(le_u64(v) =~= b.subrange(at, at + 8));
}

/// The database key of the record of `node` in `layer`.
pub open spec fn spec_tile_key(layer: LayerType, node: VNode) -> Seq<u8> {
    le_u32(layer.spec_index()) + le_u64(node.key())
}

/// The state stored under each variant number, in declaration order.
pub open spec fn spec_state_index(s: TileState) -> u32 {
    match s {
        TileState::Missing => 0,
        TileState::Base => 1,
        TileState::Generated => 2,
        TileState::GpuOnly => 3,
        TileState::MissingBase => 4,
    }
}

/// The database value of a record: its checksum, then its state.
pub open spec fn spec_meta_bytes(meta: TileMeta) -> Seq<u8> {
    le_u32(meta.crc32) + le_u32(spec_state_index(meta.state))
}

/// The record a key names: 12 bytes holding a layer and the key of a node.
pub open spec fn spec_decode_key(k: Seq<u8>) -> Option<(LayerType, VNode)> {
    if k.len() == 12 {
        match LayerType::spec_from_index(read_u32(k, 0)) {
            Some(l) => if exists|n: VNode| n.wf() && n.key() == read_u64(k, 4) {
                Some((l, choose|n: VNode| n.wf() && n.key() == read_u64(k, 4)))
            } else {
                None
            },
            None => None,
        }
    } else {
        None
    }
}

pub open spec fn spec_state_from_index(i: u32) -> Option<TileState> {
    if i == 0 {
        Some(TileState::Missing)
    } else if i == 1 {
        Some(TileState::Base)
    } else if i == 2 {
        Some(TileState::Generated)
    } else if i == 3 {
        Some(TileState::GpuOnly)
    } else if i == 4 {
        Some(TileState::MissingBase)
    } else {
        None
    }
}

/// The record a value holds: its first 8 bytes.
pub open spec fn spec_decode_meta(v: Seq<u8>) -> Option<TileMeta> {
    if v.len() >= 8 {
        match spec_state_from_index(read_u32(v, 4)) {
            Some(s) => Some(TileMeta { crc32: read_u32(v, 0), state: s }),
            None => None,
        }
    } else {
        None
    }
}

/// Encodes the database key of the record of `node` in `layer`.
pub fn tile_key(layer: LayerType, node: VNode) -> (r: Vec<u8>)
    ensures
        r@ == spec_tile_key(layer, node),
{
    bincode_u32_u64(layer.index(), node.key_value())
}

/// The first bytes shared by the keys of all records of `layer`.
pub fn layer_key_prefix(layer: LayerType) -> (r: Vec<u8>)
    ensures
        r@ == le_u32(layer.spec_index()),
        forall|n: VNode| #[trigger] spec_tile_key(layer, n).subrange(0, 4) == r@,
{
    let i = layer.index();
    let r = vec![i as u8, 0u8, 0u8, 0u8];
    assert((i & 0xff) as u8 == i as u8 && ((i >> 8u32) & 0xff) as u8 == 0 && ((i >> 16u32) & 0xff) as u8 == 0
        && ((i >> 24u32) & 0xff) as u8 == 0) by (bit_vector)
        requires
            i < 5,
    ;
    assert(r@ =~= le_u32(i));
    assert forall|n: VNode| #[trigger] spec_tile_key(layer, n).subrange(0, 4) == r@ by {
        assert(spec_tile_key(layer, n).subrange(0, 4) =~= le_u32(i));
    }
    r
}

fn state_index(s: TileState) -> (r: u32)
    ensures
        r == spec_state_index(s),
{
    match s {
        TileState::Missing => 0,
        TileState::Base => 1,
        TileState::Generated => 2,
        TileState::GpuOnly => 3,
        TileState::MissingBase => 4,
    }
}

fn state_from_index(i: u32) -> (r: Option<TileState>)
    ensures
        r == spec_state_from_index(i),
{
    match i {
        0 => Some(TileState::Missing),
        1 => Some(TileState::Base),
        2 => Some(TileState::Generated),
        3 => Some(TileState::GpuOnly),
        4 => Some(TileState::MissingBase),
        _ => None,
    }
}

/// Encodes the database value of a record.
pub fn encode_tile_meta(meta: TileMeta) -> (r: Vec<u8>)
    ensures
        r@ == spec_meta_bytes(meta),
{
    bincode_u32_u32(meta.crc32, state_index(meta.state))
}

/// Decodes a record key; `None` unless it is the key of a record.
pub fn decode_tile_key(k: &[u8]) -> (r: Option<(LayerType, VNode)>)
    ensures
        r == spec_decode_key(k@),
        r matches Some((l, n)) ==> n.wf() && k@ == spec_tile_key(l, n),
{
    if k.len() != 12 {
        return None;
    }
    let (a, b) = match bincode_read_u32_u64(k) {
        Some(p) => p,
        None => {
            return None;
        },
    };
    let layer = match LayerType::from_index(a) {
        Some(l) => l,
        None => {
            return None;
        },
    };
    match VNode::from_key(b) {
        Some(n) => {
            proof {
                let c = choose|m: VNode| m.wf() && m.key() == read_u64(k@, 4);
                VNode::lemma_from_fields_of(c);
                VNode::lemma_from_fields_of(n);
                lemma_le_u32(k@, 0);
                lemma_le_u64(k@, 4);
                assert(k@ =~= k@.subrange(0, 4) + k@.subrange(4, 12));
            }
            Some((layer, n))
        },
        None => None,
    }
}

/// Decodes a record value; `None` unless it holds a checksum and a state.
pub fn decode_tile_meta(v: &[u8]) -> (r: Option<TileMeta>)
    ensures
        r == spec_decode_meta(v@),
{
    match bincode_read_u32_u32(v) {
        Some((crc32, s)) => match state_from_index(s) {
            Some(state) => Some(TileMeta { crc32, state }),
            None => None,
        },
        None => None,
    }
}


proof fn lemma_decode_key(k: Seq<u8>)
    requires
        spec_decode_key(k) is Some,
    ensures
        ({
            let (l, n) = spec_decode_key(k)->Some_0;
            n.wf() && k == spec_tile_key(l, n)
        }),
{
    let n = choose|m: VNode| m.wf() && m.key() == read_u64(k, 4);
    lemma_le_u32(k, 0);
    lemma_le_u64(k, 4);
    assert(k =~= k.subrange(0, 4) + k.subrange(4, 12));
}

/// The record a database entry holds: its layer, its node and its contents.
pub open spec fn spec_decode_entry(k: Seq<u8>, v: Seq<u8>) -> Option<(LayerType, VNode, TileMeta)> {
    match (spec_decode_key(k), spec_decode_meta(v)) {
        (Some((l, n)), Some(m)) => Some((l, n, m)),
        _ => None,
    }
}

/// The bytes of scanned database entries.
pub open spec fn entry_bytes(entries: Seq<(Vec<u8>, Vec<u8>)>) -> Seq<(Seq<u8>, Seq<u8>)> {
    entries.map_values(|e: (Vec<u8>, Vec<u8>)| (e.0@, e.1@))
}

/// Every entry holds a record.
pub open spec fn all_decode(entries: Seq<(Seq<u8>, Seq<u8>)>) -> bool {
    forall|i: int| 0 <= i < entries.len() ==> (#[trigger] spec_decode_entry(entries[i].0, entries[i].1)) is Some
}

/// The entry is a record of `layer` in `state`.
pub open spec fn holds(e: (Seq<u8>, Seq<u8>), layer: LayerType, state: TileState) -> bool {
    match spec_decode_entry(e.0, e.1) {
        Some((l, _, m)) => l == layer && m.state == state,
        None => false,
    }
}

/// The nodes of the records of `layer` in `state`, in the order of the entries.
pub open spec fn selected(entries: Seq<(Seq<u8>, Seq<u8>)>, layer: LayerType, state: TileState) -> Seq<VNode>
    decreases entries.len(),
{
    if entries.len() == 0 {
        Seq::empty()
    } else {
        let prev = selected(entries.drop_last(), layer, state);
        let e = entries.last();
        if holds(e, layer, state) {
            prev.push(spec_decode_entry(e.0, e.1)->Some_0.1)
        } else {
            prev
        }
    }
}

/// The nodes of the records of `layer` in `state`, from the entries of a scan
/// of the database; an entry that holds no record makes the database corrupt.
pub fn nodes_in_state(layer: LayerType, state: TileState, entries: &Vec<(Vec<u8>, Vec<u8>)>) -> (r: Result<
    Vec<VNode>,
    StoreError,
>)
    ensures
        r is Ok <==> all_decode(entry_bytes(entries@)),
        r is Err ==> r == Err::<Vec<VNode>, StoreError>(StoreError::DbCorrupt),
        r matches Ok(ns) ==> ns@ == selected(entry_bytes(entries@), layer, state),
{
    let ghost all = entry_bytes(entries@);
    let mut found: Vec<VNode> = Vec::new();
    for i in 0..entries.len()
        invariant
            all == entry_bytes(entries@),
            all.len() == entries@.len(),
            all_decode(all.subrange(0, i as int)),
            found@ == selected(all.subrange(0, i as int), layer, state),
    {
        let (k, v) = (&entries[i].0, &entries[i].1);
        assert(all[i as int] == (k@, v@));
        let key = decode_tile_key(k.as_slice());
        let meta = decode_tile_meta(v.as_slice());
        match (key, meta) {
            (Some((l, n)), Some(m)) => {
                if l == layer && m.state == state {
                    found.push(n);
                }
                proof {
                    let pre = all.subrange(0, i + 1);
                    assert(pre.drop_last() =~= all.subrange(0, i as int));
                    assert(pre.last() == all[i as int]);
                    assert forall|j: int| 0 <= j < pre.len() implies (#[trigger] spec_decode_entry(pre[j].0, pre[j].1)) is Some by {
                        if j < i {
                            assert(pre[j] == all.subrange(0, i as int)[j]);
                        }
                    }
                }
            },
            _ => {
                proof {
                    assert(spec_decode_entry(all[i as int].0, all[i as int].1) is None);
                }
                return Err(StoreError::DbCorrupt);
            },
        }
    }
    assert(all.subrange(0, entries@.len() as int) =~= all);
    Ok(found)
}

/// The nodes of `layer` whose base tile is declared but not yet present.
pub fn get_missing_base(layer: LayerType, entries: &Vec<(Vec<u8>, Vec<u8>)>) -> (r: Result<Vec<VNode>, StoreError>)
    ensures
        r is Ok <==> all_decode(entry_bytes(entries@)),
        r is Err ==> r == Err::<Vec<VNode>, StoreError>(StoreError::DbCorrupt),
        r matches Ok(ns) ==> ns@ == selected(entry_bytes(entries@), layer, TileState::MissingBase),
{
    nodes_in_state(layer, TileState::MissingBase, entries)
}

/// The keys of the records to remove to forget the generated tiles of `layer`.
pub open spec fn generated_keys(entries: Seq<(Seq<u8>, Seq<u8>)>, layer: LayerType) -> Seq<Seq<u8>> {
    selected(entries, layer, TileState::Generated).map_values(|n: VNode| spec_tile_key(layer, n))
}

/// The keys of the records of `layer` in state `Generated`: removing them
/// forgets the generated tiles of the layer.
pub fn clear_generated(layer: LayerType, entries: &Vec<(Vec<u8>, Vec<u8>)>) -> (r: Result<Vec<Vec<u8>>, StoreError>)
    ensures
        r is Ok <==> all_decode(entry_bytes(entries@)),
        r is Err ==> r == Err::<Vec<Vec<u8>>, StoreError>(StoreError::DbCorrupt),
        r matches Ok(ks) ==> ks@.map_values(|k: Vec<u8>| k@) == generated_keys(entry_bytes(entries@), layer),
{
    let nodes = nodes_in_state(layer, TileState::Generated, entries)?;
    let mut keys: Vec<Vec<u8>> = Vec::new();
    for i in 0..nodes.len()
        invariant
            keys@.len() == i,
            forall|j: int| 0 <= j < i ==> (#[trigger] keys@[j])@ == spec_tile_key(layer, nodes@[j]),
    {
        keys.push(tile_key(layer, nodes[i]));
    }
    assert(keys@.map_values(|k: Vec<u8>| k@) =~= nodes@.map_values(|n: VNode| spec_tile_key(layer, n)));
    Ok(keys)
}

proof fn lemma_selected_contains(entries: Seq<(Seq<u8>, Seq<u8>)>, layer: LayerType, state: TileState, i: int)
    requires
        0 <= i < entries.len(),
        holds(entries[i], layer, state),
    ensures
        selected(entries, layer, state).contains(
            spec_decode_entry(entries[i].0, entries[i].1)->Some_0.1,
        ),
    decreases entries.len(),
{
    let prev = selected(entries.drop_last(), layer, state);
    if i < entries.len() - 1 {
        assert(entries.drop_last()[i] == entries[i]);
        lemma_selected_contains(entries.drop_last(), layer, state, i);
        let j = choose|j: int| 0 <= j < prev.len() && prev[j] == spec_decode_entry(entries[i].0, entries[i].1)->Some_0.1;
        if holds(entries.last(), layer, state) {
            assert(selected(entries, layer, state)[j] == prev[j]);
        }
    } else {
        let s = selected(entries, layer, state);
        assert(s[s.len() - 1] == spec_decode_entry(entries[i].0, entries[i].1)->Some_0.1);
    }
}

/// After `clear_generated` succeeds on the records of a table, removing the
/// keys it returns leaves no record of that layer in state `Generated`:
/// every record of the table that is not removed is of another layer or in
/// another state.
pub proof fn lemma_clear_generated(layer: LayerType, table: Seq<(Seq<u8>, Seq<u8>)>)
    requires
        all_decode(table),
    ensures
        forall|i: int|
            0 <= i < table.len() && !generated_keys(table, layer).contains(#[trigger] table[i].0) ==> !holds(
                table[i],
                layer,
                TileState::Generated,
            ),
{
    assert forall|i: int|
        0 <= i < table.len() && !generated_keys(table, layer).contains(#[trigger] table[i].0) implies !holds(
            table[i],
            layer,
            TileState::Generated,
        ) by {
        if holds(table[i], layer, TileState::Generated) {
            let k = table[i].0;
            lemma_selected_contains(table, layer, TileState::Generated, i);
            lemma_decode_key(k);
            let n = spec_decode_entry(k, table[i].1)->Some_0.1;
            let sel = selected(table, layer, TileState::Generated);
            let j = choose|j: int| 0 <= j < sel.len() && sel[j] == n;
            assert(generated_keys(table, layer)[j] == k);
        }
    }
}

} // verus!
