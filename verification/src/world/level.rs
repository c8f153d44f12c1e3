//! The world: loaded chunks, the block changes that outlive them, and the
//! mapping between world and chunk coordinates.
use std::collections::HashMap;
use vstd::prelude::*;
use vstd::std_specs::hash::spec_keys_iter;
use vstd::std_specs::iter::IteratorSpec;

use crate::world::chunk::{in_chunk, Chunk};
use crate::codecs::position::{packed_position, Position};
use crate::proto::packets::play::ScBlockUpdate;
use crate::world::palette::{minecraft_id, PaletteBlockKind};

verus! {

broadcast use vstd::std_specs::hash::group_hash_axioms;

/// A chunk's coordinates, in chunks: (x, z).
pub type ChunkPos = (i32, i32);

pub type EntityId = usize;

/// The chunk that holds world column (wx, wz).
pub open spec fn chunk_of(wx: int, wz: int) -> ChunkPos {
    ((wx / 16) as i32, (wz / 16) as i32)
}

/// A block change that is kept per chunk, so that a chunk generated again
/// shows it; it remembers the block it replaced.
#[derive(Debug, Clone, Copy)]
pub struct BlockPatch {
    pub idx: u64,
    pub x: u32,
    pub y: i32,
    pub z: u32,
    pub kind: PaletteBlockKind,
    pub original: PaletteBlockKind,
}

/// What a chunk holds after a block is set in it: the block, and every other
/// block of `before` as it was.
pub open spec fn set_in_chunk(before: Chunk, after: Chunk, x: int, y: int, z: int, kind: PaletteBlockKind) -> bool {
    &&& after.wf()
    &&& after.coords() == before.coords()
    &&& after.block(x, y, z) == kind
    &&& forall|a: int, b: int, c: int|
        in_chunk(a, b, c) && (a, b, c) != (x, y, z) ==> #[trigger] after.block(a, b, c)
            == before.block(a, b, c)
}

impl BlockPatch {
    /// A patch at chunk-local `pos`; negative x or z wrap as `as u32` does.
    pub fn new(
        idx: u64,
        pos: (i32, i32, i32),
        kind: PaletteBlockKind,
        original: PaletteBlockKind,
    ) -> (r: Self)
        ensures
            r == (BlockPatch { idx, x: pos.0 as u32, y: pos.1, z: pos.2 as u32, kind, original }),
    {
        Self { idx, x: pos.0 as u32, y: pos.1, z: pos.2 as u32, kind, original }
    }

    pub fn new2(
        idx: u64,
        x: u32,
        y: i32,
        z: u32,
        kind: PaletteBlockKind,
        original: PaletteBlockKind,
    ) -> (r: Self)
        ensures
            r == (BlockPatch { idx, x, y, z, kind, original }),
    {
        Self { idx, x, y, z, kind, original }
    }

    /// Whether the patch names a block of a chunk.
    pub open spec fn in_chunk(&self) -> bool {
        in_chunk(self.x as int, self.y as int, self.z as int)
    }

    /// Sets the patched block to the patch's kind.
    pub fn apply(&self, chunk: &mut Chunk)
        requires
            old(chunk).wf(),
            self.in_chunk(),
        ensures
            set_in_chunk(*old(chunk), *final(chunk), self.x as int, self.y as int, self.z as int, self.kind),
    {
        chunk.set_block_local(self.x, self.y, self.z, self.kind);
    }

    /// Sets the patched block back to the kind it replaced.
    pub fn unapply(&self, chunk: &mut Chunk)
        requires
            old(chunk).wf(),
            self.in_chunk(),
        ensures
            set_in_chunk(*old(chunk), *final(chunk), self.x as int, self.y as int, self.z as int, self.original),
    {
        chunk.set_block_local(self.x, self.y, self.z, self.original);
    }
}

/// Undoing a patch that was applied to a chunk whose block it recorded gives
/// back that chunk's blocks.
pub proof fn lemma_patch_unapply_undoes_apply(c0: Chunk, c1: Chunk, c2: Chunk, p: BlockPatch)
    requires
        c0.wf(),
        p.in_chunk(),
        p.original == c0.block(p.x as int, p.y as int, p.z as int),
        set_in_chunk(c0, c1, p.x as int, p.y as int, p.z as int, p.kind),
        set_in_chunk(c1, c2, p.x as int, p.y as int, p.z as int, p.original),
    ensures
        forall|a: int, b: int, c: int| in_chunk(a, b, c) ==> #[trigger] c2.block(a, b, c) == c0.block(a, b, c),
{
    assert forall|a: int, b: int, c: int| in_chunk(a, b, c) implies #[trigger] c2.block(a, b, c) == c0.block(a, b, c) by {
        if (a, b, c) != (p.x as int, p.y as int, p.z as int) {
            assert(c1.block(a, b, c) == c0.block(a, b, c));
        }
    }
}

/// The kind that a list of patches leaves at a block: that of the last patch
/// there, or `base` when none is.
pub open spec fn patched_kind(patches: Seq<BlockPatch>, x: int, y: int, z: int, base: PaletteBlockKind) -> PaletteBlockKind
    decreases patches.len(),
{
    if patches.len() == 0 {
        base
    } else {
        let last = patches.last();
        if (last.x as int, last.y as int, last.z as int) == (x, y, z) {
            last.kind
        } else {
            patched_kind(patches.drop_last(), x, y, z, base)
        }
    }
}

/// Applies the patches in order; a block that several patches name ends up
/// as the last of them has it.
pub fn apply_patches(chunk: &mut Chunk, patches: &Vec<BlockPatch>)
    requires
        old(chunk).wf(),
        forall|i: int| 0 <= i < patches@.len() ==> #[trigger] patches@[i].in_chunk(),
    ensures
        final(chunk).wf(),
        final(chunk).coords() == old(chunk).coords(),
        forall|a: int, b: int, c: int|
            in_chunk(a, b, c) ==> #[trigger] final(chunk).block(a, b, c) == patched_kind(patches@, a, b, c, old(chunk).block(a, b, c)),
{
    let mut i: usize = 0;
    while i < patches.len()
        invariant
            i <= patches@.len(),
            chunk.wf(),
            chunk.coords() == old(chunk).coords(),
            forall|j: int| 0 <= j < patches@.len() ==> #[trigger] patches@[j].in_chunk(),
            forall|a: int, b: int, c: int|
                in_chunk(a, b, c) ==> #[trigger] chunk.block(a, b, c) == patched_kind(patches@.take(i as int), a, b, c, old(chunk).block(a, b, c)),
        decreases patches@.len() - i,
    {
        let ghost before = *chunk;
        patches[i].apply(chunk);
        proof {
            let p = patches@[i as int];
            assert(patches@.take(i + 1).drop_last() =~= patches@.take(i as int));
            assert(patches@.take(i + 1).last() == p);
            assert forall|a: int, b: int, c: int| in_chunk(a, b, c) implies #[trigger] chunk.block(a, b, c) == patched_kind(patches@.take(i + 1), a, b, c, old(chunk).block(a, b, c)) by {
                if (a, b, c) != (p.x as int, p.y as int, p.z as int) {
                    assert(chunk.block(a, b, c) == before.block(a, b, c));
                }
            }
        }
        i += 1;
    }
    assert(patches@.take(patches@.len() as int) =~= patches@);
}

/// The first patch of a list with index `idx`, if any.
pub open spec fn first_patch(s: Seq<BlockPatch>, idx: u64) -> Option<BlockPatch>
    decreases s.len(),
{
    if s.len() == 0 {
        None
    } else if s[0].idx == idx {
        Some(s[0])
    } else {
        first_patch(s.drop_first(), idx)
    }
}

/// The packet that tells a client the block at world (wx, wy, wz) is now
/// `kind`: the packed position and the kind's block state id.
pub fn block_update(wx: i32, wy: i32, wz: i32, kind: PaletteBlockKind) -> (r: ScBlockUpdate)
    ensures
        r.location.0 as u64 == packed_position(wx as i64, wy as i64, wz as i64),
        r.global_block_id == minecraft_id(kind) as i32,
{
    let location = Position::from_pos(wx as i64, wy as i64, wz as i64);
    ScBlockUpdate::new(location, kind.as_minecraft_id() as i32)
}

/// The key a chunk is filed under: its x in the high 32 bits and its z in
/// the low 32 bits, each in two's complement.
pub open spec fn chunk_key(p: ChunkPos) -> u64 {
    ((p.0 as u32 as u64) << 32u64) | (p.1 as u32 as u64)
}

/// The chunk that a key files.
pub open spec fn key_pos(k: u64) -> ChunkPos {
    ((k >> 32u64) as u32 as i32, k as u32 as i32)
}

/// Keys and chunk positions correspond one to one.
pub(crate) proof fn lemma_chunk_key(p: ChunkPos, k: u64)
    ensures
        key_pos(chunk_key(p)) == p,
        chunk_key(key_pos(k)) == k,
{
    let x = p.0;
    let z = p.1;
    assert((((((x as u32 as u64) << 32u64) | (z as u32 as u64)) >> 32u64) as u32 as i32) == x) by (bit_vector);
    assert(((((x as u32 as u64) << 32u64) | (z as u32 as u64)) as u32 as i32) == z) by (bit_vector);
    assert(((((k >> 32u64) as u32 as i32) as u32 as u64) << 32u64) | ((k as u32 as i32) as u32 as u64) == k)
        by (bit_vector);
}

/// The chunks whose keys a set holds.
pub open spec fn keyed_chunks(keys: Set<u64>) -> Set<ChunkPos> {
    Set::new(|p: ChunkPos| keys.contains(chunk_key(p)))
}

/// Two chunks share a key only when they are the same chunk.
pub(crate) proof fn lemma_chunk_key_injective(p: ChunkPos, q: ChunkPos)
    ensures
        chunk_key(p) == chunk_key(q) <==> p == q,
{
    lemma_chunk_key(p, 0);
    lemma_chunk_key(q, 0);
}

pub(crate) fn key_of(p: ChunkPos) -> (r: u64)
    ensures
        r == chunk_key(p),
{
    ((p.0 as u32 as u64) << 32u64) | (p.1 as u32 as u64)
}

pub(crate) fn pos_of(k: u64) -> (r: ChunkPos)
    ensures
        r == key_pos(k),
{
    ((k >> 32u64) as u32 as i32, k as u32 as i32)
}

/// The squared distance between two chunk positions, and whether computing it
/// in 32-bit arithmetic, as the unloading and queueing code does, stays in range.
pub open spec fn sq_dist(p: ChunkPos, c: ChunkPos) -> int {
    (p.0 - c.0) * (p.0 - c.0) + (p.1 - c.1) * (p.1 - c.1)
}

pub open spec fn sq_dist_fits_i32(p: ChunkPos, c: ChunkPos) -> bool {
    &&& i32::MIN <= p.0 - c.0 <= i32::MAX
    &&& i32::MIN <= p.1 - c.1 <= i32::MAX
    &&& (p.0 - c.0) * (p.0 - c.0) <= i32::MAX
    &&& (p.1 - c.1) * (p.1 - c.1) <= i32::MAX
    &&& sq_dist(p, c) <= i32::MAX
}

/// Whether the squared distance from `p` to `center` can be computed in
/// 32-bit arithmetic.
pub fn sq_dist_fits_i32_check(p: ChunkPos, center: ChunkPos) -> (r: bool)
    ensures
        r == sq_dist_fits_i32(p, center),
{
    let dx = p.0 as i128 - center.0 as i128;
    let dz = p.1 as i128 - center.1 as i128;
    assert(0 <= dx * dx <= 0x1_0000_0000_0000_0000) by (nonlinear_arith)
        requires
            -0x1_0000_0000 <= dx <= 0x1_0000_0000,
    ;
    assert(0 <= dz * dz <= 0x1_0000_0000_0000_0000) by (nonlinear_arith)
        requires
            -0x1_0000_0000 <= dz <= 0x1_0000_0000,
    ;
    let max = i32::MAX as i128;
    let min = i32::MIN as i128;
    min <= dx && dx <= max && min <= dz && dz <= max && dx * dx <= max && dz * dz <= max && dx * dx + dz * dz <= max
}

/// Whether a chunk lies within `radius` chunks of `center`.
pub open spec fn within_radius(p: ChunkPos, center: ChunkPos, radius: i32) -> bool {
    sq_dist(p, center) <= radius * radius
}

/// Computes whether `p` is within `radius` of `center`, in 32-bit arithmetic.
pub fn is_within_radius(p: ChunkPos, center: ChunkPos, radius: i32) -> (r: bool)
    requires
        sq_dist_fits_i32(p, center),
        radius * radius <= i32::MAX,
    ensures
        r == within_radius(p, center, radius),
{
    let dx = p.0 - center.0;
    let dz = p.1 - center.1;
    assert(0 <= dx * dx) by (nonlinear_arith);
    assert(0 <= dz * dz) by (nonlinear_arith);
    assert(0 <= radius * radius) by (nonlinear_arith);
    dx * dx + dz * dz <= radius * radius
}

/// The loaded chunks, and the patches of every chunk that has any.
pub struct LevelMaps {
    chunk_map: HashMap<u64, Chunk>,
    patch_map: HashMap<u64, Vec<BlockPatch>>,
}

/// The world: its chunks and patches, and its settings and counters.
pub struct Level {
    pub maps: LevelMaps,
    pub patch_counter: u64,
    pub seed: u64,
    pub view_distance: i32,
    pub tick_counter: u64,
}

impl LevelMaps {
    pub closed spec fn wf(&self) -> bool {
        &&& forall|k: u64| #[trigger] self.chunk_map@.contains_key(k) ==> self.chunk_map@[k].wf()
        &&& forall|k: u64| #[trigger] self.chunk_map@.contains_key(k) ==> self.chunk_map@[k].coords() == key_pos(k)
        &&& forall|k: u64, j: int|
            self.patch_map@.contains_key(k) && 0 <= j < self.patch_map@[k]@.len() ==> #[trigger] self.patch_map@[k]@[j].in_chunk()
    }

    /// The loaded chunks, by position.
    pub closed spec fn chunks(&self) -> Map<ChunkPos, Chunk> {
        Map::new(|p: ChunkPos| self.chunk_map@.contains_key(chunk_key(p)), |p: ChunkPos| self.chunk_map@[chunk_key(p)])
    }

    /// The patches of each chunk that has any, oldest first.
    pub closed spec fn patches(&self) -> Map<ChunkPos, Seq<BlockPatch>> {
        Map::new(
            |p: ChunkPos| self.patch_map@.contains_key(chunk_key(p)),
            |p: ChunkPos| self.patch_map@[chunk_key(p)]@,
        )
    }

    /// The patches of a chunk, oldest first; none when it has no entry.
    pub open spec fn patches_of(&self, pos: ChunkPos) -> Seq<BlockPatch> {
        if self.patches().contains_key(pos) {
            self.patches()[pos]
        } else {
            Seq::empty()
        }
    }

    /// Every loaded chunk is well formed and sits at its own position.
    pub proof fn lemma_chunks_wf(&self, pos: ChunkPos)
        requires
            self.wf(),
            self.chunks().contains_key(pos),
        ensures
            self.chunks()[pos].wf(),
            self.chunks()[pos].coords() == pos,
    {
        lemma_chunk_key(pos, 0);
        assert(self.chunk_map@.contains_key(chunk_key(pos)));
    }

    pub fn new() -> (r: Self)
        ensures
            r.wf(),
            r.chunks() == Map::<ChunkPos, Chunk>::empty(),
            r.patches() == Map::<ChunkPos, Seq<BlockPatch>>::empty(),
    {
        let r = Self { chunk_map: HashMap::new(), patch_map: HashMap::new() };
        assert(r.chunks() =~= Map::<ChunkPos, Chunk>::empty());
        assert(r.patches() =~= Map::<ChunkPos, Seq<BlockPatch>>::empty());
        r
    }

    pub fn is_chunk_loaded(&self, pos: ChunkPos) -> (r: bool)
        ensures
            r == self.chunks().contains_key(pos),
    {
        self.chunk_map.contains_key(&key_of(pos))
    }

    /// Loads a chunk at `pos`, replacing any chunk there.
    pub fn insert_chunk(&mut self, pos: ChunkPos, chunk: Chunk)
        requires
            old(self).wf(),
            chunk.wf(),
            chunk.coords() == pos,
        ensures
            final(self).wf(),
            final(self).chunks() == old(self).chunks().insert(pos, chunk),
            final(self).patches() == old(self).patches(),
    {
        let k = key_of(pos);
        self.chunk_map.insert(k, chunk);
        proof {
            lemma_chunk_key(pos, k);
            assert forall|p: ChunkPos| #[trigger] self.chunks().contains_key(p) <==> old(self).chunks().insert(pos, chunk).contains_key(p) by {
                lemma_chunk_key_injective(p, pos);
            }
            assert forall|p: ChunkPos| #[trigger] self.chunks().contains_key(p) implies self.chunks()[p] == old(self).chunks().insert(pos, chunk)[p] by {
                lemma_chunk_key_injective(p, pos);
            }
            assert(self.chunks() =~= old(self).chunks().insert(pos, chunk));
            assert(self.patches() =~= old(self).patches());
        }
    }

    /// The chunk loaded at `pos`, if any.
    pub fn chunk_ref(&self, pos: ChunkPos) -> (r: Option<&Chunk>)
        requires
            self.wf(),
        ensures
            r is Some <==> self.chunks().contains_key(pos),
            r matches Some(c) ==> *c == self.chunks()[pos],
    {
        self.chunk_map.get(&key_of(pos))
    }

    /// Sets a block of the chunk loaded at `pos`; every other block of every
    /// chunk stays.
    pub fn set_block_in(&mut self, pos: ChunkPos, lx: u32, y: i32, lz: u32, kind: PaletteBlockKind)
        requires
            old(self).wf(),
            old(self).chunks().contains_key(pos),
            in_chunk(lx as int, y as int, lz as int),
        ensures
            final(self).wf(),
            final(self).chunks() == old(self).chunks().insert(pos, final(self).chunks()[pos]),
            set_in_chunk(old(self).chunks()[pos], final(self).chunks()[pos], lx as int, y as int, lz as int, kind),
            final(self).patches() == old(self).patches(),
    {
        let k = key_of(pos);
        let mut c = match self.chunk_map.remove(&k) {
            Some(c) => c,
            None => {
                assert(false);
                Chunk::new(0, 0)
            },
        };
        let ghost before = c;
        c.set_block_local(lx, y, lz, kind);
        self.chunk_map.insert(k, c);
        proof {
            lemma_chunk_key(pos, k);
            assert(self.chunks()[pos] == c);
            assert forall|p: ChunkPos| #[trigger] self.chunks().contains_key(p) <==> old(self).chunks().insert(pos, c).contains_key(p) by {
                lemma_chunk_key_injective(p, pos);
            }
            assert forall|p: ChunkPos| #[trigger] self.chunks().contains_key(p) implies self.chunks()[p] == old(self).chunks().insert(pos, c)[p] by {
                lemma_chunk_key_injective(p, pos);
            }
            assert(self.chunks() =~= old(self).chunks().insert(pos, c));
            assert(self.patches() =~= old(self).patches());
        }
    }

    /// The kind of a block of the chunk loaded at `pos`.
    pub fn get_block_in(&self, pos: ChunkPos, lx: u32, y: i32, lz: u32) -> (r: PaletteBlockKind)
        requires
            self.wf(),
            self.chunks().contains_key(pos),
            in_chunk(lx as int, y as int, lz as int),
        ensures
            r == self.chunks()[pos].block(lx as int, y as int, lz as int),
    {
        proof {
            self.lemma_chunks_wf(pos);
        }
        let c = self.chunk_ref(pos).unwrap();
        c.get_block_local(lx, y, lz)
    }

    /// Appends a patch to the list of the chunk at `pos`, starting the list
    /// when there is none.
    pub fn add_patch(&mut self, pos: ChunkPos, patch: BlockPatch)
        requires
            old(self).wf(),
            patch.in_chunk(),
        ensures
            final(self).wf(),
            final(self).chunks() == old(self).chunks(),
            final(self).patches() == old(self).patches().insert(pos, old(self).patches_of(pos).push(patch)),
    {
        let k = key_of(pos);
        proof {
            lemma_chunk_key(pos, k);
        }
        let mut list: Vec<BlockPatch> = match self.patch_map.remove(&k) {
            Some(l) => l,
            None => Vec::new(),
        };
        assert(list@ == old(self).patches_of(pos));
        list.push(patch);
        self.patch_map.insert(k, list);
        proof {
            let target = old(self).patches().insert(pos, old(self).patches_of(pos).push(patch));
            assert forall|p: ChunkPos| #[trigger] self.patches().contains_key(p) <==> target.contains_key(p) by {
                lemma_chunk_key_injective(p, pos);
            }
            assert forall|p: ChunkPos| #[trigger] self.patches().contains_key(p) implies self.patches()[p] == target[p] by {
                lemma_chunk_key_injective(p, pos);
            }
            assert(self.patches() =~= target);
            assert(self.chunks() =~= old(self).chunks());
        }
    }

    /// A copy of the patches of the chunk at `pos`, oldest first.
    pub fn patches_for(&self, pos: ChunkPos) -> (r: Vec<BlockPatch>)
        requires
            self.wf(),
        ensures
            r@ == self.patches_of(pos),
    {
        let k = key_of(pos);
        proof {
            lemma_chunk_key(pos, k);
        }
        match self.patch_map.get(&k) {
            Some(src) => {
                let mut out: Vec<BlockPatch> = Vec::new();
                let mut i: usize = 0;
                while i < src.len()
                    invariant
                        i <= src@.len(),
                        out@ == src@.take(i as int),
                    decreases src@.len() - i,
                {
                    out.push(src[i]);
                    i += 1;
                    assert(out@ =~= src@.take(i as int));
                }
                assert(src@.take(src@.len() as int) =~= src@);
                out
            },
            None => Vec::new(),
        }
    }

    /// Every patch that the level keeps names a block of a chunk.
    pub proof fn lemma_patches_in_chunk(&self, pos: ChunkPos)
        requires
            self.wf(),
        ensures
            forall|i: int| 0 <= i < self.patches_of(pos).len() ==> #[trigger] self.patches_of(pos)[i].in_chunk(),
    {
        if self.patches().contains_key(pos) {
            let k = chunk_key(pos);
            assert forall|i: int| 0 <= i < self.patches_of(pos).len() implies #[trigger] self.patches_of(pos)[i].in_chunk() by {
                assert(self.patches_of(pos)[i] == self.patch_map@[k]@[i]);
            }
        }
    }

    /// The first patch of the chunk at `pos` with index `idx`, if any.
    pub fn find_patch(&self, pos: ChunkPos, idx: u64) -> (r: Option<BlockPatch>)
        requires
            self.wf(),
        ensures
            r == first_patch(self.patches_of(pos), idx),
            r matches Some(p) ==> p.in_chunk(),
    {
        let list = self.patches_for(pos);
        proof {
            self.lemma_patches_in_chunk(pos);
            assert(list@.skip(0) =~= list@);
        }
        let mut k: usize = 0;
        while k < list.len()
            invariant
                k <= list@.len(),
                list@ == self.patches_of(pos),
                forall|i: int| 0 <= i < list@.len() ==> #[trigger] list@[i].in_chunk(),
                first_patch(list@, idx) == first_patch(list@.skip(k as int), idx),
            decreases list@.len() - k,
        {
            assert(list@.skip(k as int).drop_first() =~= list@.skip(k + 1));
            if list[k].idx == idx {
                return Some(list[k]);
            }
            k += 1;
        }
        None
    }

    /// The keys of the loaded chunks, each once.
    fn chunk_keys(&self) -> (r: Vec<u64>)
        ensures
            r@.to_set() == self.chunk_map@.dom(),
            r@.no_duplicates(),
    {
        let mut out: Vec<u64> = Vec::new();
        let ghost ks = spec_keys_iter(&self.chunk_map).remaining();
        for k in it: self.chunk_map.keys()
            invariant
                it.seq() == ks,
                out@.len() == it.index(),
                forall|i: int| 0 <= i < out@.len() ==> out@[i] == *ks[i],
        {
            out.push(*k);
        }
        assert(out@ =~= ks.unref());
        out
    }

    /// Whether every loaded chunk's squared distance to `center` can be
    /// computed in 32-bit arithmetic.
    pub fn chunks_fit_i32(&self, center: ChunkPos) -> (r: bool)
        ensures
            r == forall|p: ChunkPos| #[trigger] self.chunks().contains_key(p) ==> sq_dist_fits_i32(p, center),
    {
        let keys = self.chunk_keys();
        let ghost ks = keys@;
        let mut i: usize = 0;
        while i < keys.len()
            invariant
                i <= ks.len(),
                keys@ == ks,
                ks.to_set() == self.chunk_map@.dom(),
                forall|j: int| 0 <= j < i ==> sq_dist_fits_i32(key_pos(#[trigger] ks[j]), center),
            decreases ks.len() - i,
        {
            let k = keys[i];
            if !sq_dist_fits_i32_check(pos_of(k), center) {
                proof {
                    lemma_chunk_key(key_pos(k), k);
                    assert(ks.contains(k));
                    assert(self.chunks().contains_key(key_pos(k)));
                }
                return false;
            }
            i += 1;
        }
        proof {
            assert forall|p: ChunkPos| #[trigger] self.chunks().contains_key(p) implies sq_dist_fits_i32(p, center) by {
                lemma_chunk_key(p, 0);
                assert(ks.to_set().contains(chunk_key(p)));
                let j = choose|j: int| 0 <= j < ks.len() && ks[j] == chunk_key(p);
                assert(sq_dist_fits_i32(key_pos(ks[j]), center));
            }
        }
        true
    }

    /// Drops every loaded chunk farther than `radius` from `center`, and
    /// returns the positions dropped.
    pub fn remove_chunks_outside(&mut self, center: ChunkPos, radius: i32) -> (r: Vec<ChunkPos>)
        requires
            old(self).wf(),
            radius * radius <= i32::MAX,
            forall|p: ChunkPos| #[trigger] old(self).chunks().contains_key(p) ==> sq_dist_fits_i32(p, center),
        ensures
            final(self).wf(),
            final(self).chunks() == old(self).chunks().restrict(Set::new(|p: ChunkPos| within_radius(p, center, radius))),
            final(self).patches() == old(self).patches(),
            r@.no_duplicates(),
            forall|p: ChunkPos| #[trigger] r@.contains(p) <==> (old(self).chunks().contains_key(p) && !within_radius(p, center, radius)),
    {
        let keys = self.chunk_keys();
        let ghost om = self.chunk_map@;
        let ghost ks = keys@;
        let mut removed: Vec<ChunkPos> = Vec::new();
        let mut i: usize = 0;
        while i < keys.len()
            invariant
                i <= ks.len(),
                keys@ == ks,
                ks.to_set() == om.dom(),
                ks.no_duplicates(),
                om == old(self).chunk_map@,
                self.patch_map == old(self).patch_map,
                old(self).wf(),
                radius * radius <= i32::MAX,
                forall|p: ChunkPos| #[trigger] old(self).chunks().contains_key(p) ==> sq_dist_fits_i32(p, center),
                forall|k: u64| #[trigger] self.chunk_map@.contains_key(k) <==> om.contains_key(k) && !(
                    ks.take(i as int).contains(k) && !within_radius(key_pos(k), center, radius)),
                forall|k: u64| #[trigger] self.chunk_map@.contains_key(k) ==> self.chunk_map@[k] == om[k],
                removed@.no_duplicates(),
                removed@.len() <= i,
                forall|j: int| 0 <= j < removed@.len() ==> ks.take(i as int).contains(chunk_key(#[trigger] removed@[j])),
                forall|k: u64| ks.take(i as int).contains(k) && !within_radius(key_pos(k), center, radius) ==> #[trigger] removed@.contains(key_pos(k)),
                forall|p: ChunkPos| #[trigger] removed@.contains(p) ==> !within_radius(p, center, radius),
            decreases ks.len() - i,
        {
            let k = keys[i];
            let p = pos_of(k);
            let ghost pre = ks.take(i as int);
            let ghost post = ks.take(i + 1);
            proof {
                lemma_chunk_key(p, k);
                assert(ks.contains(k));
                assert(om.dom().contains(k));
                assert(old(self).chunks().contains_key(p));
                assert(post =~= pre.push(k));
                assert(!pre.contains(k)) by {
                    if pre.contains(k) {
                        let j = choose|j: int| 0 <= j < i && pre[j] == k;
                        assert(ks[j] == ks[i as int]);
                    }
                }
            }
            if !is_within_radius(p, center, radius) {
                let ghost prev = removed@;
                self.chunk_map.remove(&k);
                removed.push(p);
                proof {
                    assert(!prev.contains(p)) by {
                        if prev.contains(p) {
                            let j = choose|j: int| 0 <= j < prev.len() && prev[j] == p;
                            assert(pre.contains(chunk_key(prev[j])));
                        }
                    }
                    assert forall|a: int, b: int| 0 <= a < removed@.len() && 0 <= b < removed@.len() && a != b implies removed@[a] != removed@[b] by {
                        if a == prev.len() {
                            assert(prev.contains(prev[b]));
                        } else if b == prev.len() {
                            assert(prev.contains(prev[a]));
                        } else {
                            assert(removed@[a] == prev[a]);
                            assert(removed@[b] == prev[b]);
                        }
                    }
                    assert forall|j: int| 0 <= j < removed@.len() implies post.contains(chunk_key(#[trigger] removed@[j])) by {
                        if j < prev.len() {
                            assert(pre.contains(chunk_key(prev[j])));
                            let t = choose|t: int| 0 <= t < i && pre[t] == chunk_key(prev[j]);
                            assert(post[t] == chunk_key(prev[j]));
                        } else {
                            assert(post[i as int] == k);
                        }
                    }
                    assert forall|q: u64| post.contains(q) && !within_radius(key_pos(q), center, radius) implies #[trigger] removed@.contains(key_pos(q)) by {
                        if q == k {
                            assert(removed@[prev.len() as int] == p);
                        } else {
                            let t = choose|t: int| 0 <= t < i + 1 && post[t] == q;
                            assert(t < i);
                            assert(pre[t] == q);
                            assert(prev.contains(key_pos(q)));
                            let u = choose|u: int| 0 <= u < prev.len() && prev[u] == key_pos(q);
                            assert(removed@[u] == key_pos(q));
                        }
                    }
                    assert forall|q: ChunkPos| #[trigger] removed@.contains(q) implies !within_radius(q, center, radius) by {
                        let u = choose|u: int| 0 <= u < removed@.len() && removed@[u] == q;
                        if u < prev.len() {
                            assert(prev.contains(q));
                        }
                    }
                }
            } else {
                proof {
                    assert forall|j: int| 0 <= j < removed@.len() implies post.contains(chunk_key(#[trigger] removed@[j])) by {
                        assert(pre.contains(chunk_key(removed@[j])));
                        let t = choose|t: int| 0 <= t < i && pre[t] == chunk_key(removed@[j]);
                        assert(post[t] == chunk_key(removed@[j]));
                    }
                    assert forall|q: u64| post.contains(q) && !within_radius(key_pos(q), center, radius) implies #[trigger] removed@.contains(key_pos(q)) by {
                        let t = choose|t: int| 0 <= t < i + 1 && post[t] == q;
                        if t < i {
                            assert(pre[t] == q);
                        }
                    }
                }
            }
            proof {
                assert forall|q: u64| #[trigger] self.chunk_map@.contains_key(q) <==> om.contains_key(q) && !(post.contains(q) && !within_radius(key_pos(q), center, radius)) by {
                    if post.contains(q) && q != k {
                        let t = choose|t: int| 0 <= t < i + 1 && post[t] == q;
                        assert(pre[t] == q);
                    }
                    if pre.contains(q) {
                        let t = choose|t: int| 0 <= t < i && pre[t] == q;
                        assert(post[t] == q);
                    }
                    assert(post[i as int] == k);
                }
            }
            i += 1;
        }
        proof {
            assert(ks.take(ks.len() as int) =~= ks);
            let target = old(self).chunks().restrict(Set::new(|p: ChunkPos| within_radius(p, center, radius)));
            assert forall|p: ChunkPos| #[trigger] self.chunks().contains_key(p) <==> target.contains_key(p) by {
                lemma_chunk_key(p, 0);
                if om.contains_key(chunk_key(p)) {
                    assert(ks.to_set().contains(chunk_key(p)));
                }
            }
            assert forall|p: ChunkPos| #[trigger] self.chunks().contains_key(p) implies self.chunks()[p] == target[p] by {
            }
            assert(self.chunks() =~= target);
            assert(self.patches() =~= old(self).patches());
            assert forall|p: ChunkPos| #[trigger] removed@.contains(p) <==> (old(self).chunks().contains_key(p) && !within_radius(p, center, radius)) by {
                lemma_chunk_key(p, 0);
                if removed@.contains(p) {
                    let j = choose|j: int| 0 <= j < removed@.len() && removed@[j] == p;
                    assert(ks.contains(chunk_key(removed@[j])));
                    assert(ks.to_set().contains(chunk_key(p)));
                }
                if old(self).chunks().contains_key(p) && !within_radius(p, center, radius) {
                    assert(om.dom().contains(chunk_key(p)));
                    assert(ks.to_set().contains(chunk_key(p)));
                    assert(ks.contains(chunk_key(p)));
                }
            }
            assert forall|q: u64| #[trigger] self.chunk_map@.contains_key(q) implies self.chunk_map@[q].wf() && self.chunk_map@[q].coords() == key_pos(q) by {
                assert(om.contains_key(q));
            }
        }
        removed
    }
}

impl Level {
    pub open spec fn wf(&self) -> bool {
        self.maps.wf()
    }

    pub open spec fn chunks(&self) -> Map<ChunkPos, Chunk> {
        self.maps.chunks()
    }

    pub open spec fn patches(&self) -> Map<ChunkPos, Seq<BlockPatch>> {
        self.maps.patches()
    }

    pub open spec fn patches_of(&self, pos: ChunkPos) -> Seq<BlockPatch> {
        self.maps.patches_of(pos)
    }

    /// An empty world with the given view distance, and the seed 69420.
    pub fn new(view_distance: i32) -> (r: Self)
        ensures
            r.wf(),
            r.chunks() == Map::<ChunkPos, Chunk>::empty(),
            r.patches() == Map::<ChunkPos, Seq<BlockPatch>>::empty(),
            r.patch_counter == 0,
            r.seed == 69420,
            r.view_distance == view_distance,
            r.tick_counter == 0,
    {
        Self { maps: LevelMaps::new(), patch_counter: 0, seed: 69420, view_distance, tick_counter: 0 }
    }

    pub fn is_chunk_loaded(&self, pos: ChunkPos) -> (r: bool)
        ensures
            r == self.chunks().contains_key(pos),
    {
        self.maps.is_chunk_loaded(pos)
    }

    /// The chunk of world column (wx, wz), and the column's place in it.
    pub fn world_to_chunk_and_local(wx: i32, wz: i32) -> (r: (i32, i32, u32, u32))
        ensures
            (r.0, r.1) == chunk_of(wx as int, wz as int),
            r.2 == (wx as int) % 16,
            r.3 == (wz as int) % 16,
            r.2 < 16,
            r.3 < 16,
    {
        let (cx, cz) = Self::world_to_chunk(wx, wz);
        let (lx, lz) = Self::world_to_chunk_local(wx, wz);
        (cx, cz, lx, lz)
    }

    /// The place of world column (wx, wz) in its chunk.
    pub fn world_to_chunk_local(wx: i32, wz: i32) -> (r: (u32, u32))
        ensures
            r.0 == (wx as int) % 16,
            r.1 == (wz as int) % 16,
            r.0 < 16,
            r.1 < 16,
    {
        let lx = match wx.checked_rem_euclid(16) {
            Some(v) => v,
            None => 0,
        };
        let lz = match wz.checked_rem_euclid(16) {
            Some(v) => v,
            None => 0,
        };
        (lx as u32, lz as u32)
    }

    /// The chunk of world column (wx, wz).
    pub fn world_to_chunk(wx: i32, wz: i32) -> (r: (i32, i32))
        ensures
            r == chunk_of(wx as int, wz as int),
    {
        let cx = match wx.checked_div_euclid(16) {
            Some(v) => v,
            None => 0,
        };
        let cz = match wz.checked_div_euclid(16) {
            Some(v) => v,
            None => 0,
        };
        (cx, cz)
    }

    /// Sets the block at world (wx, wy, wz), whose chunk is loaded; every other
    /// block stays. Returns the chunk, whose viewers are to be told.
    pub fn set_block(&mut self, wx: i32, wy: i32, wz: i32, kind: PaletteBlockKind) -> (r: ChunkPos)
        requires
            old(self).wf(),
            old(self).chunks().contains_key(chunk_of(wx as int, wz as int)),
            -64 <= wy < 320,
        ensures
            r == chunk_of(wx as int, wz as int),
            final(self).wf(),
            final(self).chunks() == old(self).chunks().insert(r, final(self).chunks()[r]),
            set_in_chunk(old(self).chunks()[r], final(self).chunks()[r], (wx as int) % 16, wy as int, (wz as int) % 16, kind),
            final(self).patches() == old(self).patches(),
            final(self).patch_counter == old(self).patch_counter,
            final(self).seed == old(self).seed,
            final(self).view_distance == old(self).view_distance,
            final(self).tick_counter == old(self).tick_counter,
    {
        let (cx, cz, lx, lz) = Self::world_to_chunk_and_local(wx, wz);
        let cpos = (cx, cz);
        self.maps.set_block_in(cpos, lx, wy, lz, kind);
        cpos
    }

    /// Records a patch of the block at world (wx, wy, wz), whose chunk is
    /// loaded, with the next patch index and the block there now.
    fn make_block_patch(&mut self, wx: i32, wy: i32, wz: i32, kind: PaletteBlockKind) -> (r: BlockPatch)
        requires
            old(self).wf(),
            old(self).chunks().contains_key(chunk_of(wx as int, wz as int)),
            -64 <= wy < 320,
            old(self).patch_counter < u64::MAX,
        ensures
            *final(self) == (Level { patch_counter: (old(self).patch_counter + 1) as u64, ..*old(self) }),
            r == (BlockPatch {
                idx: (old(self).patch_counter + 1) as u64,
                x: ((wx as int) % 16) as u32,
                y: wy,
                z: ((wz as int) % 16) as u32,
                kind,
                original: old(self).chunks()[chunk_of(wx as int, wz as int)].block((wx as int) % 16, wy as int, (wz as int) % 16),
            }),
    {
        let (cx, cz, lx, lz) = Self::world_to_chunk_and_local(wx, wz);
        self.patch_counter += 1;
        let original = self.maps.get_block_in((cx, cz), lx, wy, lz);
        BlockPatch::new2(self.patch_counter, lx, wy, lz, kind, original)
    }

    /// Sets the block at world (wx, wy, wz) for good: the change is recorded
    /// as a patch of its chunk, with the next patch index and the block it
    /// replaced, and applied to the loaded chunk. Returns the patch index.
    pub fn set_block_perma(&mut self, wx: i32, wy: i32, wz: i32, kind: PaletteBlockKind) -> (r: u64)
        requires
            old(self).wf(),
            old(self).chunks().contains_key(chunk_of(wx as int, wz as int)),
            -64 <= wy < 320,
            old(self).patch_counter < u64::MAX,
        ensures
            r == old(self).patch_counter + 1,
            final(self).patch_counter == r,
            final(self).wf(),
            final(self).patches() == old(self).patches().insert(
                chunk_of(wx as int, wz as int),
                old(self).patches_of(chunk_of(wx as int, wz as int)).push(BlockPatch {
                    idx: r,
                    x: ((wx as int) % 16) as u32,
                    y: wy,
                    z: ((wz as int) % 16) as u32,
                    kind,
                    original: old(self).chunks()[chunk_of(wx as int, wz as int)].block((wx as int) % 16, wy as int, (wz as int) % 16),
                }),
            ),
            final(self).chunks() == old(self).chunks().insert(chunk_of(wx as int, wz as int), final(self).chunks()[chunk_of(wx as int, wz as int)]),
            set_in_chunk(old(self).chunks()[chunk_of(wx as int, wz as int)], final(self).chunks()[chunk_of(wx as int, wz as int)], (wx as int) % 16, wy as int, (wz as int) % 16, kind),
            final(self).seed == old(self).seed,
            final(self).view_distance == old(self).view_distance,
            final(self).tick_counter == old(self).tick_counter,
    {
        let patch = self.make_block_patch(wx, wy, wz, kind);
        let (cx, cz) = Self::world_to_chunk(wx, wz);
        let cpos = (cx, cz);
        self.maps.add_patch(cpos, patch);
        if self.is_chunk_loaded(cpos) {
            self.set_block(wx, wy, wz, kind);
        }
        patch.idx
    }

    /// The block at (wx, wy, wz) as this level reads it: from the chunk at
    /// (wx mod 16, wz mod 16), which must be loaded, at column (wx mod 16,
    /// wz mod 16) of it.
    pub fn get_block(&self, wx: i32, wy: i32, wz: i32) -> (r: PaletteBlockKind)
        requires
            self.wf(),
            self.chunks().contains_key((((wx as int) % 16) as i32, ((wz as int) % 16) as i32)),
            -64 <= wy < 320,
        ensures
            r == self.chunks()[(((wx as int) % 16) as i32, ((wz as int) % 16) as i32)].block((wx as int) % 16, wy as int, (wz as int) % 16),
    {
        let (lx, lz) = Self::world_to_chunk_local(wx, wz);
        let chunk_x = lx as i32;
        let chunk_z = lz as i32;
        self.maps.get_block_in((chunk_x, chunk_z), lx, wy, lz)
    }

    /// Counts one more tick.
    pub fn advance_tick(&mut self)
        requires
            old(self).tick_counter < u64::MAX,
        ensures
            *final(self) == (Level { tick_counter: (old(self).tick_counter + 1) as u64, ..*old(self) }),
    {
        self.tick_counter += 1;
    }
}

} // verus!
