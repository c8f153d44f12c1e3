//! A structure that grows and shrinks a column of logs over a bedrock core,
//! one block each way per tick, keeping each block it places as a patch of
//! the world and taking the previous tick's blocks back first.
use vstd::prelude::*;

use crate::world::chunk::{in_chunk, Chunk};
use crate::world::level::{chunk_of, first_patch, BlockPatch, ChunkPos, Level};
use crate::world::palette::PaletteBlockKind;

verus! {

/// The block the structure puts at height `y` of its column: bedrock at its
/// own height, oak log elsewhere.
pub open spec fn column_kind(centre_y: int, y: int) -> PaletteBlockKind {
    if y == centre_y {
        PaletteBlockKind::Bedrock
    } else {
        PaletteBlockKind::OakLog
    }
}

/// The patches, still kept by the level, that a list of (chunk, patch index)
/// entries names, in the list's order; an entry whose patch is gone is
/// skipped.
pub open spec fn kept_patches(level: Level, ours: Seq<(ChunkPos, u64)>) -> Seq<(ChunkPos, BlockPatch)>
    decreases ours.len(),
{
    if ours.len() == 0 {
        Seq::empty()
    } else {
        let prev = kept_patches(level, ours.drop_last());
        let (c, idx) = ours.last();
        match first_patch(level.patches_of(c), idx) {
            Some(p) => prev.push((c, p)),
            None => prev,
        }
    }
}

/// The block that taking back a list of patches leaves at (a, b, c): what
/// the last of them there had replaced, or `base` when none is there.
pub open spec fn restored_kind(list: Seq<(ChunkPos, BlockPatch)>, a: int, b: int, c: int, base: PaletteBlockKind) -> PaletteBlockKind
    decreases list.len(),
{
    if list.len() == 0 {
        base
    } else {
        let p = list.last().1;
        if (p.x as int, p.y as int, p.z as int) == (a, b, c) {
            p.original
        } else {
            restored_kind(list.drop_last(), a, b, c, base)
        }
    }
}

/// The patch that the `j`-th block of a column of half-height `half` round
/// `pos` becomes, after `p0` patches, in a chunk whose blocks were those of
/// `c0` with the patches `restored` taken back.
pub open spec fn column_patch(p0: u64, pos: (i32, i32, i32), half: int, j: int, restored: Seq<(ChunkPos, BlockPatch)>, c0: Chunk) -> BlockPatch {
    let y = pos.1 - half + j;
    let lx = (pos.0 as int) % 16;
    let lz = (pos.2 as int) % 16;
    BlockPatch {
        idx: (p0 + 1 + j) as u64,
        x: lx as u32,
        y: y as i32,
        z: lz as u32,
        kind: column_kind(pos.1 as int, y),
        original: restored_kind(restored, lx, y, lz, c0.block(lx, y, lz)),
    }
}

/// The first `n` patches of such a column.
pub open spec fn column_patches(p0: u64, pos: (i32, i32, i32), half: int, n: int, restored: Seq<(ChunkPos, BlockPatch)>, c0: Chunk) -> Seq<BlockPatch> {
    Seq::new(n as nat, |j: int| column_patch(p0, pos, half, j, restored, c0))
}

/// The blocks of such a column, in the order they are placed.
pub open spec fn column_blocks(pos: (i32, i32, i32), half: int, n: int) -> Seq<(i32, i32, i32, PaletteBlockKind)> {
    Seq::new(n as nat, |j: int| (pos.0, (pos.1 - half + j) as i32, pos.2, column_kind(pos.1 as int, pos.1 - half + j)))
}

/// What one tick of a structure changed: the patches it took back, with their
/// chunks, and the blocks it placed, in order.
pub struct StructureTick {
    pub restored: Vec<(ChunkPos, BlockPatch)>,
    pub placed: Vec<(i32, i32, i32, PaletteBlockKind)>,
}

pub struct StructureEntity {
    position: (i32, i32, i32),
    our_patches: Vec<(ChunkPos, u64)>,
    counter: i32,
    up: bool,
}

impl StructureEntity {
    /// The half-height stays in [0, 10], and the structure turns at the ends.
    pub closed spec fn wf(&self) -> bool {
        &&& 0 <= self.counter <= 10
        &&& self.counter == 10 ==> !self.up
        &&& self.counter == 0 ==> self.up
        &&& forall|i: int| 0 <= i < self.our_patches@.len() ==> #[trigger] self.our_patches@[i].0 == chunk_of(self.position.0 as int, self.position.2 as int)
    }

    /// The position of the structure's centre.
    pub closed spec fn pos(&self) -> (i32, i32, i32) {
        self.position
    }

    /// The patches placed on the last tick that placed any.
    pub closed spec fn patches(&self) -> Seq<(ChunkPos, u64)> {
        self.our_patches@
    }

    /// The column's half-height.
    pub closed spec fn half_height(&self) -> int {
        self.counter as int
    }

    /// Whether the column grows on the next tick.
    pub closed spec fn growing(&self) -> bool {
        self.up
    }

    /// The column's half-height never leaves [0, 10]: a new structure starts
    /// at 0 and every tick keeps it in range.
    pub proof fn lemma_half_height_bounded(&self)
        requires
            self.wf(),
        ensures
            0 <= self.half_height() <= 10,
    {
    }

    pub fn new(position: (i32, i32, i32)) -> (r: Self)
        ensures
            r.wf(),
            r.pos() == position,
            r.patches() == Seq::<(ChunkPos, u64)>::empty(),
            r.half_height() == 0,
            r.growing(),
    {
        Self { position, our_patches: Vec::new(), counter: 0, up: true }
    }

    /// The position of the structure's centre.
    pub fn position(&self) -> (r: (i32, i32, i32))
        ensures
            r == self.pos(),
    {
        self.position
    }

    /// The half-height of the column.
    pub fn counter(&self) -> (r: i32)
        ensures
            r == self.half_height(),
    {
        self.counter
    }

    /// On three ticks out of four: takes back the patches of the last
    /// column, places a column of half-height `counter` (blocks from
    /// `counter` below the structure up to `counter - 1` above it) as
    /// patches, then moves the half-height one step on, turning at 0 and 10.
    /// On the fourth tick nothing happens and `None` is returned.
    #[verifier::rlimit(30)]
    pub fn tick(&mut self, level: &mut Level) -> (r: Option<StructureTick>)
        requires
            old(self).wf(),
            old(level).wf(),
            old(level).tick_counter % 4 != 0 ==> old(level).chunks().contains_key(
                chunk_of(old(self).pos().0 as int, old(self).pos().2 as int),
            ),
            old(level).tick_counter % 4 != 0 ==> -64 <= old(self).pos().1 - old(self).half_height(),
            old(level).tick_counter % 4 != 0 ==> old(self).pos().1 + old(self).half_height() <= 320,
            old(level).tick_counter % 4 != 0 ==> old(level).patch_counter + 2 * old(self).half_height()
                <= u64::MAX,
        ensures
            final(self).wf(),
            final(self).pos() == old(self).pos(),
            old(level).tick_counter % 4 == 0 ==> r is None && *final(self) == *old(self) && *final(level) == *old(level),
            old(level).tick_counter % 4 != 0 ==> ({
                let pos = old(self).pos();
                let half = old(self).half_height();
                let cpos = chunk_of(pos.0 as int, pos.2 as int);
                let lx = (pos.0 as int) % 16;
                let lz = (pos.2 as int) % 16;
                let restored = kept_patches(*old(level), old(self).patches());
                let c0 = old(level).chunks()[cpos];
                let p0 = old(level).patch_counter;
                &&& r matches Some(t) && t.restored@ == restored
                &&& r matches Some(t) && t.placed@ == column_blocks(pos, half, 2 * half)
                &&& final(level).wf()
                &&& final(level).chunks() == old(level).chunks().insert(cpos, final(level).chunks()[cpos])
                &&& final(level).chunks()[cpos].coords() == cpos
                &&& forall|a: int, b: int, c: int| in_chunk(a, b, c) ==> #[trigger] final(level).chunks()[cpos].block(a, b, c) == if a == lx && c == lz && pos.1 - half <= b < pos.1 + half {
                    column_kind(pos.1 as int, b)
                } else {
                    restored_kind(restored, a, b, c, c0.block(a, b, c))
                }
                &&& final(level).patches() == if half == 0 {
                    old(level).patches()
                } else {
                    old(level).patches().insert(cpos, old(level).patches_of(cpos) + column_patches(p0, pos, half, 2 * half, restored, c0))
                }
                &&& final(level).patch_counter == p0 + 2 * half
                &&& final(level).seed == old(level).seed
                &&& final(level).view_distance == old(level).view_distance
                &&& final(level).tick_counter == old(level).tick_counter
                &&& final(self).patches() == Seq::new((2 * half) as nat, |j: int| (cpos, (p0 + 1 + j) as u64))
                &&& forall|j: int| 0 <= j < 2 * half ==> (#[trigger] final(self).patches()[j]).0 == cpos
                    && final(level).patches_of(cpos)[old(level).patches_of(cpos).len() + j].idx == final(self).patches()[j].1
                &&& final(self).half_height() == if old(self).growing() { half + 1 } else { half - 1 }
                &&& final(self).growing() == if final(self).half_height() >= 10 || final(self).half_height() <= 0 {
                    !old(self).growing()
                } else {
                    old(self).growing()
                }
            }),
    {
        if level.tick_counter % 4 == 0 {
            return None;
        }
        let ghost pos = self.position;
        let ghost half = self.counter as int;
        let ghost cpos = chunk_of(pos.0 as int, pos.2 as int);
        let ghost l0 = *level;
        // The patches of the last column that the level still keeps.
        let mut restored: Vec<(ChunkPos, BlockPatch)> = Vec::new();
        let mut k: usize = 0;
        while k < self.our_patches.len()
            invariant
                k <= self.our_patches@.len(),
                *level == l0,
                level.wf(),
                restored@ == kept_patches(l0, self.our_patches@.take(k as int)),
                forall|i: int| 0 <= i < restored@.len() ==> #[trigger] restored@[i].0 == cpos && restored@[i].1.in_chunk(),
                forall|i: int| 0 <= i < self.our_patches@.len() ==> #[trigger] self.our_patches@[i].0 == cpos,
            decreases self.our_patches@.len() - k,
        {
            let (c, idx) = self.our_patches[k];
            assert(self.our_patches@.take(k + 1).drop_last() =~= self.our_patches@.take(k as int));
            match level.maps.find_patch(c, idx) {
                Some(p) => {
                    restored.push((c, p));
                },
                None => {},
            }
            k += 1;
        }
        assert(self.our_patches@.take(self.our_patches@.len() as int) =~= self.our_patches@);
        proof {
            level.maps.lemma_chunks_wf(cpos);
        }
        // Take them back.
        let mut k: usize = 0;
        while k < restored.len()
            invariant
                k <= restored@.len(),
                cpos == chunk_of(pos.0 as int, pos.2 as int),
                forall|i: int| 0 <= i < restored@.len() ==> #[trigger] restored@[i].0 == cpos && restored@[i].1.in_chunk(),
                level.wf(),
                level.chunks().contains_key(cpos),
                level.chunks() == l0.chunks().insert(cpos, level.chunks()[cpos]),
                level.chunks()[cpos].coords() == cpos,
                forall|a: int, b: int, c: int| in_chunk(a, b, c) ==> #[trigger] level.chunks()[cpos].block(a, b, c) == restored_kind(restored@.take(k as int), a, b, c, l0.chunks()[cpos].block(a, b, c)),
                level.patches() == l0.patches(),
                level.patch_counter == l0.patch_counter,
                level.seed == l0.seed,
                level.view_distance == l0.view_distance,
                level.tick_counter == l0.tick_counter,
            decreases restored@.len() - k,
        {
            let (c, p) = restored[k];
            let ghost before = level.chunks()[cpos];
            level.maps.set_block_in(c, p.x, p.y, p.z, p.original);
            proof {
                assert(restored@.take(k + 1).drop_last() =~= restored@.take(k as int));
                assert(restored@.take(k + 1).last() == (c, p));
                assert forall|a: int, b: int, c: int| in_chunk(a, b, c) implies #[trigger] level.chunks()[cpos].block(a, b, c) == restored_kind(restored@.take(k + 1), a, b, c, l0.chunks()[cpos].block(a, b, c)) by {
                    if (a, b, c) != (p.x as int, p.y as int, p.z as int) {
                        assert(level.chunks()[cpos].block(a, b, c) == before.block(a, b, c));
                    }
                }
            }
            k += 1;
        }
        assert(restored@.take(restored@.len() as int) =~= restored@);
        let ghost c0 = l0.chunks()[cpos];
        let ghost p0 = l0.patch_counter;
        let ghost lx = (pos.0 as int) % 16;
        let ghost lz = (pos.2 as int) % 16;
        self.our_patches.clear();
        // Place the new column.
        let mut placed: Vec<(i32, i32, i32, PaletteBlockKind)> = Vec::new();
        let (x, y, z) = self.position;
        let mut i: i32 = -self.counter;
        while i < self.counter
            invariant
                self.position == pos,
                self.up == old(self).up,
                cpos == chunk_of(pos.0 as int, pos.2 as int),
                lx == (pos.0 as int) % 16,
                lz == (pos.2 as int) % 16,
                c0 == l0.chunks()[cpos],
                p0 == l0.patch_counter,
                self.counter == half,
                0 <= half <= 10,
                -half <= i <= half,
                -64 <= pos.1 - half,
                pos.1 + half <= 320,
                p0 + 2 * half <= u64::MAX,
                x == pos.0 && y == pos.1 && z == pos.2,
                level.wf(),
                level.chunks().contains_key(cpos),
                level.chunks() == l0.chunks().insert(cpos, level.chunks()[cpos]),
                level.chunks()[cpos].coords() == cpos,
                forall|a: int, b: int, c: int| in_chunk(a, b, c) ==> #[trigger] level.chunks()[cpos].block(a, b, c) == if a == lx && c == lz && pos.1 - half <= b < pos.1 + i {
                    column_kind(pos.1 as int, b)
                } else {
                    restored_kind(restored@, a, b, c, c0.block(a, b, c))
                },
                level.patches() == if i + half == 0 {
                    l0.patches()
                } else {
                    l0.patches().insert(cpos, l0.patches_of(cpos) + column_patches(p0, pos, half, i + half, restored@, c0))
                },
                level.patch_counter == p0 + i + half,
                level.seed == l0.seed,
                level.view_distance == l0.view_distance,
                level.tick_counter == l0.tick_counter,
                self.our_patches@ == Seq::new((i + half) as nat, |j: int| (cpos, (p0 + 1 + j) as u64)),
                placed@ == column_blocks(pos, half, i + half),
            decreases half - i,
        {
            let wy = y + i;
            let kind = if wy == y {
                PaletteBlockKind::Bedrock
            } else {
                PaletteBlockKind::OakLog
            };
            let ghost before = *level;
            let ghost j = i + half;
            let idx = level.set_block_perma(x, wy, z, kind);
            self.our_patches.push((Level::world_to_chunk(x, z), idx));
            placed.push((x, wy, z, kind));
            proof {
                assert(chunk_of(x as int, z as int) == cpos);
                assert(before.chunks()[cpos].block(lx, wy as int, lz) == restored_kind(restored@, lx, wy as int, lz, c0.block(lx, wy as int, lz)));
                assert(before.patches_of(cpos) =~= l0.patches_of(cpos) + column_patches(p0, pos, half, j, restored@, c0));
                assert forall|a: int, b: int, c: int| in_chunk(a, b, c) implies #[trigger] level.chunks()[cpos].block(a, b, c) == if a == lx && c == lz && pos.1 - half <= b < pos.1 + i + 1 {
                    column_kind(pos.1 as int, b)
                } else {
                    restored_kind(restored@, a, b, c, c0.block(a, b, c))
                } by {
                    if (a, b, c) != (lx, wy as int, lz) {
                        assert(level.chunks()[cpos].block(a, b, c) == before.chunks()[cpos].block(a, b, c));
                    }
                }
                assert(l0.patches_of(cpos) + column_patches(p0, pos, half, j + 1, restored@, c0) =~= (l0.patches_of(cpos) + column_patches(p0, pos, half, j, restored@, c0)).push(column_patch(p0, pos, half, j, restored@, c0)));
                assert(self.our_patches@ =~= Seq::new((j + 1) as nat, |t: int| (cpos, (p0 + 1 + t) as u64)));
                assert(placed@ =~= column_blocks(pos, half, j + 1));
                assert(level.patches() =~= l0.patches().insert(cpos, l0.patches_of(cpos) + column_patches(p0, pos, half, j + 1, restored@, c0)));
            }
            i += 1;
        }
        if self.up {
            self.counter += 1;
        } else {
            self.counter -= 1;
        }
        if self.counter >= 10 || self.counter <= 0 {
            self.up = !self.up;
        }
        proof {
            assert forall|t: int| 0 <= t < self.our_patches@.len() implies #[trigger] self.our_patches@[t].0 == chunk_of(self.position.0 as int, self.position.2 as int) by {
                assert(self.our_patches@[t] == (cpos, (p0 + 1 + t) as u64));
            }
        }
        Some(StructureTick { restored, placed })
    }
}

} // verus!
