//! The block-level rules of terrain generation: which rock a column is made
//! of, where caves are carved, how diggers wander and what a dungeon is built
//! of. The noise fields and the random draws that drive them are inputs.
use vstd::prelude::*;

use crate::world::chunk::{in_chunk, Chunk};
use crate::world::level::set_in_chunk;
use crate::world::palette::PaletteBlockKind;

verus! {

/// How strongly the decoration noise marks a column: below 0.65, from 0.65,
/// or from 0.75.
#[derive(PartialEq, Eq, Structural, Debug, Clone, Copy)]
pub enum Decoration {
    Low,
    Diorite,
    Andesite,
}

/// The rock at height `ly` of a column with the given decoration band, where
/// `cobble` tells whether the second decoration noise reaches 0.4.
pub open spec fn terrain_kind(ly: int, deco: Decoration, cobble: bool) -> PaletteBlockKind {
    if ly >= -60 {
        if ly >= 15 {
            match deco {
                Decoration::Andesite => PaletteBlockKind::Andesite,
                Decoration::Diorite => PaletteBlockKind::Diorite,
                Decoration::Low => if ly >= 35 {
                    PaletteBlockKind::Granite
                } else if cobble {
                    PaletteBlockKind::Cobblestone
                } else {
                    PaletteBlockKind::Stone
                },
            }
        } else {
            PaletteBlockKind::Deepslate
        }
    } else {
        PaletteBlockKind::Bedrock
    }
}

/// How the rock of a column depends on its inputs: bedrock below -60,
/// deepslate up to 15 whatever the decoration; from 15 up a diorite or
/// andesite decoration gives that rock whatever the second decoration, and
/// the second decoration (cobblestone or stone) matters exactly for a low
/// decoration between 15 and 35, above which it is granite.
pub proof fn lemma_terrain_layers(ly: int, deco: Decoration, cobble: bool)
    ensures
        ly < -60 ==> terrain_kind(ly, deco, cobble) == PaletteBlockKind::Bedrock,
        -60 <= ly < 15 ==> terrain_kind(ly, deco, cobble) == PaletteBlockKind::Deepslate,
        ly >= 15 && deco == Decoration::Diorite ==> terrain_kind(ly, deco, cobble) == PaletteBlockKind::Diorite,
        ly >= 15 && deco == Decoration::Andesite ==> terrain_kind(ly, deco, cobble) == PaletteBlockKind::Andesite,
        ly >= 35 && deco == Decoration::Low ==> terrain_kind(ly, deco, cobble) == PaletteBlockKind::Granite,
        (terrain_kind(ly, deco, true) != terrain_kind(ly, deco, false)) <==> (deco == Decoration::Low && 15 <= ly
            < 35),
        deco == Decoration::Low && 15 <= ly < 35 ==> terrain_kind(ly, deco, true) == PaletteBlockKind::Cobblestone
            && terrain_kind(ly, deco, false) == PaletteBlockKind::Stone,
{
}

pub fn terrain_block_kind(ly: i32, deco: Decoration, cobble: bool) -> (r: PaletteBlockKind)
    ensures
        r == terrain_kind(ly as int, deco, cobble),
        ly >= 15 && deco == Decoration::Diorite ==> r == PaletteBlockKind::Diorite,
        ly >= 15 && deco == Decoration::Andesite ==> r == PaletteBlockKind::Andesite,
        !(deco == Decoration::Low && 15 <= ly < 35) ==> r == terrain_kind(ly as int, deco, !cobble),
{
    if ly >= -60 {
        if ly >= 15 {
            match deco {
                Decoration::Andesite => PaletteBlockKind::Andesite,
                Decoration::Diorite => PaletteBlockKind::Diorite,
                Decoration::Low => if ly >= 35 {
                    PaletteBlockKind::Granite
                } else if cobble {
                    PaletteBlockKind::Cobblestone
                } else {
                    PaletteBlockKind::Stone
                },
            }
        } else {
            PaletteBlockKind::Deepslate
        }
    } else {
        PaletteBlockKind::Bedrock
    }
}

/// Fills column (lx, lz) with rock from the bottom of the world up to, not
/// including, `height`; every other block stays.
pub fn fill_column(chunk: &mut Chunk, lx: u32, lz: u32, height: i32, deco: Decoration, cobble: bool)
    requires
        old(chunk).wf(),
        lx < 16,
        lz < 16,
        height <= 320,
    ensures
        final(chunk).wf(),
        final(chunk).coords() == old(chunk).coords(),
        forall|a: int, b: int, c: int|
            in_chunk(a, b, c) ==> #[trigger] final(chunk).block(a, b, c) == if a == lx && c == lz && b < height {
                terrain_kind(b, deco, cobble)
            } else {
                old(chunk).block(a, b, c)
            },
{
    let mut ly: i32 = -64;
    while ly < height
        invariant
            -64 <= ly,
            ly == -64 || ly <= height,
            ly < height ==> ly < 320,
            height <= 320,
            lx < 16,
            lz < 16,
            chunk.wf(),
            chunk.coords() == old(chunk).coords(),
            forall|a: int, b: int, c: int|
                in_chunk(a, b, c) ==> #[trigger] chunk.block(a, b, c) == if a == lx && c == lz && b < ly {
                    terrain_kind(b, deco, cobble)
                } else {
                    old(chunk).block(a, b, c)
                },
        decreases height - ly,
    {
        let kind = terrain_block_kind(ly, deco, cobble);
        chunk.set_block_local(lx, ly, lz, kind);
        ly += 1;
    }
}

/// The terrain pass: column k = (k / 16, k % 16) is filled with rock up to
/// `columns[k].0` as `fill_column` does, with decoration `columns[k].1` and
/// cobble mark `columns[k].2`. Returns the column heights, indexed the same
/// way.
pub fn fill_terrain(chunk: &mut Chunk, columns: &Vec<(i32, Decoration, bool)>) -> (r: Vec<i32>)
    requires
        old(chunk).wf(),
        columns@.len() == 256,
        forall|k: int| 0 <= k < 256 ==> #[trigger] columns@[k].0 <= 320,
    ensures
        final(chunk).wf(),
        final(chunk).coords() == old(chunk).coords(),
        r@.len() == 256,
        forall|k: int| 0 <= k < 256 ==> #[trigger] r@[k] == columns@[k].0,
        forall|a: int, b: int, c: int|
            in_chunk(a, b, c) ==> #[trigger] final(chunk).block(a, b, c) == if b < columns@[a * 16 + c].0 {
                terrain_kind(b, columns@[a * 16 + c].1, columns@[a * 16 + c].2)
            } else {
                old(chunk).block(a, b, c)
            },
{
    let mut heights: Vec<i32> = Vec::new();
    let mut k: usize = 0;
    while k < 256
        invariant
            k <= 256,
            columns@.len() == 256,
            forall|j: int| 0 <= j < 256 ==> #[trigger] columns@[j].0 <= 320,
            heights@.len() == k,
            forall|j: int| 0 <= j < k ==> #[trigger] heights@[j] == columns@[j].0,
            chunk.wf(),
            chunk.coords() == old(chunk).coords(),
            forall|a: int, b: int, c: int|
                in_chunk(a, b, c) ==> #[trigger] chunk.block(a, b, c) == if a * 16 + c < k && b < columns@[a * 16 + c].0 {
                    terrain_kind(b, columns@[a * 16 + c].1, columns@[a * 16 + c].2)
                } else {
                    old(chunk).block(a, b, c)
                },
        decreases 256 - k,
    {
        let (height, deco, cobble) = columns[k];
        let lx = (k / 16) as u32;
        let lz = (k % 16) as u32;
        fill_column(chunk, lx, lz, height, deco, cobble);
        heights.push(height);
        proof {
            assert forall|a: int, b: int, c: int| in_chunk(a, b, c) && a == lx && c == lz implies a * 16 + c == k by {}
            assert forall|a: int, b: int, c: int| in_chunk(a, b, c) && a * 16 + c == k implies a == lx && c == lz by {}
        }
        k += 1;
    }
    heights
}

/// Whether (x, y, z) lies in the box of half-width `r` round (cx, cy, cz) and
/// no farther than `r` from its centre.
pub open spec fn in_sphere(cx: int, cy: int, cz: int, r: int, x: int, y: int, z: int) -> bool {
    &&& cx - r <= x <= cx + r
    &&& cy - r <= y <= cy + r
    &&& cz - r <= z <= cz + r
    &&& (x - cx) * (x - cx) + (y - cy) * (y - cy) + (z - cz) * (z - cz) <= r * r
}

/// Lexicographic order of points: by x, then y, then z.
pub open spec fn lex_lt(p: (i32, i32, i32), q: (i32, i32, i32)) -> bool {
    ||| p.0 < q.0
    ||| p.0 == q.0 && p.1 < q.1
    ||| p.0 == q.0 && p.1 == q.1 && p.2 < q.2
}

/// The span round `c` that a sphere of radius `r` scans fits in an i32.
pub open spec fn span_fits(c: i32, r: i32) -> bool {
    &&& i32::MIN <= c - r <= i32::MAX
    &&& i32::MIN <= c + r <= i32::MAX
}

proof fn lemma_square_bound(d: int, r: int)
    requires
        -r <= d <= r,
    ensures
        0 <= d * d <= r * r,
{
    assert(0 <= d * d <= r * r) by (nonlinear_arith)
        requires
            -r <= d <= r,
    ;
}

/// The points of the sphere of radius `radius` round (cx, cy, cz), in the
/// order a scan by x, then y, then z meets them: each lies in the sphere,
/// each point of the sphere is there, and they rise strictly.
pub fn carve_sphere(cx: i32, cy: i32, cz: i32, radius: i32) -> (r: Vec<(i32, i32, i32)>)
    requires
        3 * radius * radius <= i32::MAX,
        span_fits(cx, radius),
        span_fits(cy, radius),
        span_fits(cz, radius),
    ensures
        forall|i: int| 0 <= i < r@.len() ==> in_sphere(cx as int, cy as int, cz as int, radius as int, #[trigger] r@[i].0 as int, r@[i].1 as int, r@[i].2 as int),
        forall|p: (i32, i32, i32)| in_sphere(cx as int, cy as int, cz as int, radius as int, p.0 as int, p.1 as int, p.2 as int) ==> #[trigger] r@.contains(p),
        forall|i: int, j: int| 0 <= i < j < r@.len() ==> lex_lt(#[trigger] r@[i], #[trigger] r@[j]),
{
    proof {
        assert(0 <= radius * radius <= i32::MAX) by (nonlinear_arith)
            requires
                3 * radius * radius <= i32::MAX,
        ;
    }
    let r2: i32 = radius * radius;
    let mut out: Vec<(i32, i32, i32)> = Vec::new();
    let x_end: i64 = cx as i64 + radius as i64;
    let y_end: i64 = cy as i64 + radius as i64;
    let z_end: i64 = cz as i64 + radius as i64;
    let mut x: i64 = cx as i64 - radius as i64;
    while x <= x_end
        invariant
            cx - radius <= x,
            x <= x_end + 1 || x == cx - radius,
            x_end == cx + radius,
            y_end == cy + radius,
            z_end == cz + radius,
            r2 == radius * radius,
            3 * radius * radius <= i32::MAX,
            span_fits(cx, radius),
            span_fits(cy, radius),
            span_fits(cz, radius),
            forall|i: int| 0 <= i < out@.len() ==> in_sphere(cx as int, cy as int, cz as int, radius as int, #[trigger] out@[i].0 as int, out@[i].1 as int, out@[i].2 as int),
            forall|i: int| 0 <= i < out@.len() ==> #[trigger] out@[i].0 < x,
            forall|p: (i32, i32, i32)| p.0 < x && in_sphere(cx as int, cy as int, cz as int, radius as int, p.0 as int, p.1 as int, p.2 as int) ==> #[trigger] out@.contains(p),
            forall|i: int, j: int| 0 <= i < j < out@.len() ==> lex_lt(#[trigger] out@[i], #[trigger] out@[j]),
        decreases x_end + 1 - x,
    {
        let mut y: i64 = cy as i64 - radius as i64;
        while y <= y_end
            invariant
                cx - radius <= x <= x_end,
                cy - radius <= y <= y_end + 1,
                x_end == cx + radius,
                y_end == cy + radius,
                z_end == cz + radius,
                r2 == radius * radius,
                3 * radius * radius <= i32::MAX,
                span_fits(cx, radius),
                span_fits(cy, radius),
                span_fits(cz, radius),
                forall|i: int| 0 <= i < out@.len() ==> in_sphere(cx as int, cy as int, cz as int, radius as int, #[trigger] out@[i].0 as int, out@[i].1 as int, out@[i].2 as int),
                forall|i: int| 0 <= i < out@.len() ==> #[trigger] out@[i].0 <= x,
                forall|i: int| 0 <= i < out@.len() ==> #[trigger] out@[i].0 == x ==> out@[i].1 < y,
                forall|p: (i32, i32, i32)| (p.0 < x || (p.0 == x && p.1 < y)) && in_sphere(cx as int, cy as int, cz as int, radius as int, p.0 as int, p.1 as int, p.2 as int) ==> #[trigger] out@.contains(p),
                forall|i: int, j: int| 0 <= i < j < out@.len() ==> lex_lt(#[trigger] out@[i], #[trigger] out@[j]),
            decreases y_end + 1 - y,
        {
            let mut z: i64 = cz as i64 - radius as i64;
            while z <= z_end
                invariant
                    cx - radius <= x <= x_end,
                    cy - radius <= y <= y_end,
                    cz - radius <= z <= z_end + 1,
                    x_end == cx + radius,
                    y_end == cy + radius,
                    z_end == cz + radius,
                    r2 == radius * radius,
                    3 * radius * radius <= i32::MAX,
                    span_fits(cx, radius),
                    span_fits(cy, radius),
                    span_fits(cz, radius),
                    forall|i: int| 0 <= i < out@.len() ==> in_sphere(cx as int, cy as int, cz as int, radius as int, #[trigger] out@[i].0 as int, out@[i].1 as int, out@[i].2 as int),
                    forall|i: int| 0 <= i < out@.len() ==> #[trigger] out@[i].0 <= x,
                    forall|i: int| 0 <= i < out@.len() ==> #[trigger] out@[i].0 == x ==> out@[i].1 <= y,
                    forall|i: int| 0 <= i < out@.len() ==> #[trigger] out@[i].0 == x && out@[i].1 == y ==> out@[i].2 < z,
                    forall|p: (i32, i32, i32)| (p.0 < x || (p.0 == x && p.1 < y) || (p.0 == x && p.1 == y && p.2 < z)) && in_sphere(cx as int, cy as int, cz as int, radius as int, p.0 as int, p.1 as int, p.2 as int) ==> #[trigger] out@.contains(p),
                    forall|i: int, j: int| 0 <= i < j < out@.len() ==> lex_lt(#[trigger] out@[i], #[trigger] out@[j]),
                decreases z_end + 1 - z,
            {
                let dx: i64 = x - cx as i64;
                let dy: i64 = y - cy as i64;
                let dz: i64 = z - cz as i64;
                proof {
                    lemma_square_bound(dx as int, radius as int);
                    lemma_square_bound(dy as int, radius as int);
                    lemma_square_bound(dz as int, radius as int);
                }
                let q: (i32, i32, i32) = (x as i32, y as i32, z as i32);
                if dx * dx + dy * dy + dz * dz <= r2 as i64 {
                    let ghost before = out@;
                    out.push(q);
                    proof {
                        assert forall|p: (i32, i32, i32)| (p.0 < x || (p.0 == x && p.1 < y) || (p.0 == x && p.1 == y && p.2 < z + 1)) && in_sphere(cx as int, cy as int, cz as int, radius as int, p.0 as int, p.1 as int, p.2 as int) implies #[trigger] out@.contains(p) by {
                            if p == q {
                                assert(out@[before.len() as int] == q);
                            } else {
                                assert(before.contains(p));
                                let k = choose|k: int| 0 <= k < before.len() && before[k] == p;
                                assert(out@[k] == p);
                            }
                        }
                    }
                } else {
                    proof {
                        assert forall|p: (i32, i32, i32)| (p.0 < x || (p.0 == x && p.1 < y) || (p.0 == x && p.1 == y && p.2 < z + 1)) && in_sphere(cx as int, cy as int, cz as int, radius as int, p.0 as int, p.1 as int, p.2 as int) implies #[trigger] out@.contains(p) by {
                            if p == q {
                                assert(false);
                            }
                        }
                    }
                }
                z += 1;
            }
            y += 1;
        }
        x += 1;
    }
    out
}

/// Whether a cave sphere of radius 3 round (lx, y, lz) clears block
/// (a, b, c): it lies in the sphere and below y = 300.
pub open spec fn cave_clears(lx: int, y: int, lz: int, a: int, b: int, c: int) -> bool {
    in_sphere(lx, y, lz, 3, a, b, c) && b < 300
}

/// Carves a cave sphere of radius 3 round (lx, y, lz) out of the chunk: each
/// of its blocks that lies in the chunk below y = 300 becomes air.
pub fn carve_cave(chunk: &mut Chunk, lx: i32, y: i32, lz: i32)
    requires
        old(chunk).wf(),
        span_fits(lx, 3),
        span_fits(y, 3),
        span_fits(lz, 3),
    ensures
        final(chunk).wf(),
        final(chunk).coords() == old(chunk).coords(),
        forall|a: int, b: int, c: int|
            in_chunk(a, b, c) ==> #[trigger] final(chunk).block(a, b, c) == if cave_clears(lx as int, y as int, lz as int, a, b, c) {
                PaletteBlockKind::Air
            } else {
                old(chunk).block(a, b, c)
            },
{
    let points = carve_sphere(lx, y, lz, 3);
    let mut i: usize = 0;
    while i < points.len()
        invariant
            i <= points@.len(),
            chunk.wf(),
            chunk.coords() == old(chunk).coords(),
            forall|k: int| 0 <= k < points@.len() ==> in_sphere(lx as int, y as int, lz as int, 3, #[trigger] points@[k].0 as int, points@[k].1 as int, points@[k].2 as int),
            forall|p: (i32, i32, i32)| in_sphere(lx as int, y as int, lz as int, 3, p.0 as int, p.1 as int, p.2 as int) ==> #[trigger] points@.contains(p),
            forall|a: int, b: int, c: int|
                in_chunk(a, b, c) ==> #[trigger] chunk.block(a, b, c) == if points@.take(i as int).contains((a as i32, b as i32, c as i32)) && b < 300 {
                    PaletteBlockKind::Air
                } else {
                    old(chunk).block(a, b, c)
                },
        decreases points@.len() - i,
    {
        let (x, py, z) = points[i];
        let ghost before = *chunk;
        if 0 <= x && x < 16 && -64 <= py && py < 300 && 0 <= z && z < 16 {
            chunk.set_block_local(x as u32, py, z as u32, PaletteBlockKind::Air);
        }
        proof {
            let q = points@[i as int];
            assert forall|a: int, b: int, c: int| in_chunk(a, b, c) implies #[trigger] chunk.block(a, b, c) == if points@.take(i + 1).contains((a as i32, b as i32, c as i32)) && b < 300 {
                PaletteBlockKind::Air
            } else {
                old(chunk).block(a, b, c)
            } by {
                let t = (a as i32, b as i32, c as i32);
                if points@.take(i + 1).contains(t) {
                    let k = choose|k: int| 0 <= k < i + 1 && #[trigger] points@.take(i + 1)[k] == t;
                    if k < i {
                        assert(points@.take(i as int)[k] == t);
                    }
                }
                if points@.take(i as int).contains(t) {
                    let k = choose|k: int| 0 <= k < i && #[trigger] points@.take(i as int)[k] == t;
                    assert(points@.take(i + 1)[k] == t);
                }
                if t == q {
                    assert(points@.take(i + 1)[i as int] == t);
                }
            }
        }
        i += 1;
    }
    proof {
        assert(points@.take(points@.len() as int) =~= points@);
        assert forall|a: int, b: int, c: int| in_chunk(a, b, c) implies (points@.contains((a as i32, b as i32, c as i32)) <==> in_sphere(lx as int, y as int, lz as int, 3, a, b, c)) by {
            let t = (a as i32, b as i32, c as i32);
            if points@.contains(t) {
                let k = choose|k: int| 0 <= k < points@.len() && #[trigger] points@[k] == t;
                assert(in_sphere(lx as int, y as int, lz as int, 3, points@[k].0 as int, points@[k].1 as int, points@[k].2 as int));
            }
            if in_sphere(lx as int, y as int, lz as int, 3, a, b, c) {
                assert(in_sphere(lx as int, y as int, lz as int, 3, t.0 as int, t.1 as int, t.2 as int));
            }
        }
    }
}

/// What the cave pass remembers: the first cave centre met in the middle of
/// the chunk (columns 6 to 10 both ways), and whether no cave column came
/// after it.
#[derive(Debug, Clone, Copy)]
pub struct CaveScan {
    pub cave: Option<(u32, i32, u32)>,
    pub is_single_cave: bool,
}

/// The scan after a cave centre at (lx, y, lz) is met.
pub open spec fn cave_recorded(s: CaveScan, lx: int, y: int, lz: int) -> CaveScan {
    if s.cave is None && 6 <= lx <= 10 && 6 <= lz <= 10 {
        CaveScan { cave: Some((lx as u32, y as i32, lz as u32)), is_single_cave: true }
    } else {
        CaveScan { cave: s.cave, is_single_cave: false }
    }
}

/// The scan over the first `n` columns, column k being (k / 16, k % 16) and
/// `centers[k]` the height of its cave centre, if it has one.
pub open spec fn scan_caves(centers: Seq<Option<i32>>, n: nat) -> CaveScan
    decreases n,
{
    if n == 0 {
        CaveScan { cave: None, is_single_cave: false }
    } else {
        let s = scan_caves(centers, (n - 1) as nat);
        let k = n - 1;
        match centers[k] {
            None => s,
            Some(y) => cave_recorded(s, k / 16, y as int, k % 16),
        }
    }
}

/// Whether a cave of one of the first `n` columns clears block (a, b, c).
pub open spec fn caves_clear(centers: Seq<Option<i32>>, n: int, a: int, b: int, c: int) -> bool {
    exists|k: int|
        0 <= k < n && #[trigger] centers[k] is Some && cave_clears(k / 16, centers[k]->0 as int, k % 16, a, b, c)
}

impl CaveScan {
    pub fn new() -> (r: Self)
        ensures
            r == scan_caves(Seq::empty(), 0),
    {
        CaveScan { cave: None, is_single_cave: false }
    }

    /// Notes a cave centre at (lx, y, lz).
    pub fn record(&mut self, lx: i32, y: i32, lz: i32)
        requires
            0 <= lx < 16,
            0 <= lz < 16,
        ensures
            *final(self) == cave_recorded(*old(self), lx as int, y as int, lz as int),
    {
        if self.cave.is_none() && lx >= 6 && lz >= 6 && lx <= 10 && lz <= 10 {
            self.cave = Some((lx as u32, y, lz as u32));
            self.is_single_cave = true;
        } else {
            self.is_single_cave = false;
        }
    }
}

/// The cave pass: column k = (k / 16, k % 16), in that order, that has a cave
/// centre at height `centers[k]` gets a cave sphere carved round it, and is
/// noted in the scan that is returned.
pub fn carve_caves(chunk: &mut Chunk, centers: &Vec<Option<i32>>) -> (r: CaveScan)
    requires
        old(chunk).wf(),
        centers@.len() == 256,
        forall|k: int| 0 <= k < 256 && #[trigger] centers@[k] is Some ==> span_fits(centers@[k]->0, 3),
    ensures
        final(chunk).wf(),
        final(chunk).coords() == old(chunk).coords(),
        r == scan_caves(centers@, 256),
        forall|a: int, b: int, c: int|
            in_chunk(a, b, c) ==> #[trigger] final(chunk).block(a, b, c) == if caves_clear(centers@, 256, a, b, c) {
                PaletteBlockKind::Air
            } else {
                old(chunk).block(a, b, c)
            },
{
    let mut scan = CaveScan::new();
    let mut k: usize = 0;
    while k < 256
        invariant
            k <= 256,
            centers@.len() == 256,
            forall|j: int| 0 <= j < 256 && #[trigger] centers@[j] is Some ==> span_fits(centers@[j]->0, 3),
            chunk.wf(),
            chunk.coords() == old(chunk).coords(),
            scan == scan_caves(centers@, k as nat),
            forall|a: int, b: int, c: int|
                in_chunk(a, b, c) ==> #[trigger] chunk.block(a, b, c) == if caves_clear(centers@, k as int, a, b, c) {
                    PaletteBlockKind::Air
                } else {
                    old(chunk).block(a, b, c)
                },
        decreases 256 - k,
    {
        let lx: i32 = (k / 16) as i32;
        let lz: i32 = (k % 16) as i32;
        let ghost before = *chunk;
        match centers[k] {
            None => {
                proof {
                    assert forall|a: int, b: int, c: int| in_chunk(a, b, c) implies caves_clear(centers@, k + 1, a, b, c) == caves_clear(centers@, k as int, a, b, c) by {
                        if caves_clear(centers@, k + 1, a, b, c) {
                            let j = choose|j: int| 0 <= j < k + 1 && #[trigger] centers@[j] is Some && cave_clears(j / 16, centers@[j]->0 as int, j % 16, a, b, c);
                            assert(j != k);
                        }
                    }
                }
            },
            Some(y) => {
                carve_cave(chunk, lx, y, lz);
                scan.record(lx, y, lz);
                proof {
                    assert forall|a: int, b: int, c: int| in_chunk(a, b, c) implies #[trigger] chunk.block(a, b, c) == if caves_clear(centers@, k + 1, a, b, c) {
                        PaletteBlockKind::Air
                    } else {
                        old(chunk).block(a, b, c)
                    } by {
                        if caves_clear(centers@, k + 1, a, b, c) {
                            let j = choose|j: int| 0 <= j < k + 1 && #[trigger] centers@[j] is Some && cave_clears(j / 16, centers@[j]->0 as int, j % 16, a, b, c);
                            if j < k {
                                assert(caves_clear(centers@, k as int, a, b, c));
                            }
                        }
                        if caves_clear(centers@, k as int, a, b, c) {
                            let j = choose|j: int| 0 <= j < k && #[trigger] centers@[j] is Some && cave_clears(j / 16, centers@[j]->0 as int, j % 16, a, b, c);
                            assert(caves_clear(centers@, k + 1, a, b, c));
                        }
                        if cave_clears(lx as int, y as int, lz as int, a, b, c) {
                            assert(centers@[k as int] is Some);
                            assert(caves_clear(centers@, k + 1, a, b, c));
                        }
                    }
                }
            },
        }
        k += 1;
    }
    scan
}

/// The highest block of column (x, z) at or below `from` that is not air,
/// looking no lower than y = -63; one below the world's floor, y = -65, when
/// there is none, and `from - 1` when `from` is already at the floor.
pub open spec fn surface_below(chunk: Chunk, x: int, z: int, from: int) -> int
    decreases from + 64,
{
    if from <= -64 {
        from - 1
    } else if chunk.block(x, from, z) != PaletteBlockKind::Air {
        from
    } else {
        surface_below(chunk, x, z, from - 1)
    }
}

/// How many diggers a chunk gets for a random draw.
pub fn digger_count(draw: u32) -> (r: u32)
    ensures
        r == draw % 3,
{
    draw % 3
}

/// Where a digger starts: in column (draw_x mod 16, draw_z mod 16), on the
/// highest solid block at or below one above the column's terrain height.
pub fn digger_start(chunk: &Chunk, heights: &Vec<i32>, draw_x: u32, draw_z: u32) -> (r: (i32, i32, i32))
    requires
        chunk.wf(),
        heights@.len() == 256,
        forall|k: int| 0 <= k < 256 ==> #[trigger] heights@[k] <= 318,
    ensures
        r.0 == draw_x % 16,
        r.2 == draw_z % 16,
        r.1 == surface_below(*chunk, r.0 as int, r.2 as int, heights@[r.0 * 16 + r.2] + 1),
{
    let x = draw_x % 16;
    let z = draw_z % 16;
    let top = heights[(x * 16 + z) as usize];
    assert(top <= 318);
    let mut y: i32 = top + 1;
    while y > -64
        invariant
            x == draw_x % 16,
            z == draw_z % 16,
            chunk.wf(),
            y <= 319,
            y == top + 1 || y >= -64,
            top == heights@[x * 16 + z],
            surface_below(*chunk, x as int, z as int, y as int) == surface_below(*chunk, x as int, z as int, top + 1),
        decreases y + 64,
    {
        if chunk.get_block_local(x, y, z) != PaletteBlockKind::Air {
            return (x as i32, y, z as i32);
        }
        y -= 1;
    }
    (x as i32, y - 1, z as i32)
}

/// `v` brought into [lo, hi].
pub open spec fn clamp(v: int, lo: int, hi: int) -> int {
    if v < lo {
        lo
    } else if v > hi {
        hi
    } else {
        v
    }
}

/// The step a digger takes for a random draw: along x, y or z as the draw
/// mod 3 is 0, 1 or 2, backwards when `negate`.
pub open spec fn dig_direction(draw: u32, negate: bool) -> (int, int, int) {
    let d: (int, int, int) = if draw % 3 == 0 {
        (1, 0, 0)
    } else if draw % 3 == 1 {
        (0, 1, 0)
    } else {
        (0, 0, 1)
    };
    if negate {
        (-d.0, -d.1, -d.2)
    } else {
        d
    }
}

fn clamp_i32(v: i32, lo: i32, hi: i32) -> (r: i32)
    requires
        lo <= hi,
    ensures
        r == clamp(v as int, lo as int, hi as int),
{
    if v < lo {
        lo
    } else if v > hi {
        hi
    } else {
        v
    }
}

/// One step of a digger: dirt at `pos`, then a move one block along
/// `dig_direction(draw, negate)`, held to x and z in [0, 15] and y in [0, 300].
pub fn dig_step(chunk: &mut Chunk, pos: (i32, i32, i32), draw: u32, negate: bool) -> (r: (i32, i32, i32))
    requires
        old(chunk).wf(),
        in_chunk(pos.0 as int, pos.1 as int, pos.2 as int),
    ensures
        set_in_chunk(*old(chunk), *final(chunk), pos.0 as int, pos.1 as int, pos.2 as int, PaletteBlockKind::Dirt),
        r.0 == clamp(pos.0 + dig_direction(draw, negate).0, 0, 15),
        r.1 == clamp(pos.1 + dig_direction(draw, negate).1, 0, 300),
        r.2 == clamp(pos.2 + dig_direction(draw, negate).2, 0, 15),
        in_chunk(r.0 as int, r.1 as int, r.2 as int),
{
    chunk.set_block_local(pos.0 as u32, pos.1, pos.2 as u32, PaletteBlockKind::Dirt);
    let axis = draw % 3;
    let (mut dx, mut dy, mut dz): (i32, i32, i32) = if axis == 0 {
        (1, 0, 0)
    } else if axis == 1 {
        (0, 1, 0)
    } else {
        (0, 0, 1)
    };
    if negate {
        dx = -dx;
        dy = -dy;
        dz = -dz;
    }
    (clamp_i32(pos.0 + dx, 0, 15), clamp_i32(pos.1 + dy, 0, 300), clamp_i32(pos.2 + dz, 0, 15))
}

/// Where a digger at `pos` goes on one drawn step (the draw and whether to
/// go backwards).
pub open spec fn dig_next(pos: (i32, i32, i32), step: (u32, bool)) -> (i32, i32, i32) {
    let d = dig_direction(step.0, step.1);
    (clamp(pos.0 + d.0, 0, 15) as i32, clamp(pos.1 + d.1, 0, 300) as i32, clamp(pos.2 + d.2, 0, 15) as i32)
}

/// Where a digger starting at `start` ends after the drawn steps.
pub open spec fn dig_end(start: (i32, i32, i32), steps: Seq<(u32, bool)>) -> (i32, i32, i32)
    decreases steps.len(),
{
    if steps.len() == 0 {
        start
    } else {
        dig_next(dig_end(start, steps.drop_last()), steps.last())
    }
}

/// The blocks a digger starting at `start` stands on before each drawn step,
/// in order: the blocks it turns to dirt.
pub open spec fn dig_path(start: (i32, i32, i32), steps: Seq<(u32, bool)>) -> Seq<(i32, i32, i32)>
    decreases steps.len(),
{
    if steps.len() == 0 {
        Seq::empty()
    } else {
        dig_path(start, steps.drop_last()).push(dig_end(start, steps.drop_last()))
    }
}

/// Whether a path passes block (a, b, c).
pub open spec fn on_path(path: Seq<(i32, i32, i32)>, a: int, b: int, c: int) -> bool {
    exists|k: int| 0 <= k < path.len() && path[k].0 == a && path[k].1 == b && #[trigger] path[k].2 == c
}

/// A digger's walk from `start` over the drawn steps: each step turns the
/// block it stands on to dirt and moves one block, staying in the chunk and
/// below height 300. Returns where it ends; every block the walk did not pass
/// stays.
pub fn dig_walk(chunk: &mut Chunk, start: (i32, i32, i32), steps: &Vec<(u32, bool)>) -> (r: (i32, i32, i32))
    requires
        old(chunk).wf(),
        in_chunk(start.0 as int, start.1 as int, start.2 as int),
    ensures
        r == dig_end(start, steps@),
        final(chunk).wf(),
        final(chunk).coords() == old(chunk).coords(),
        forall|a: int, b: int, c: int|
            in_chunk(a, b, c) ==> #[trigger] final(chunk).block(a, b, c) == if on_path(dig_path(start, steps@), a, b, c) {
                PaletteBlockKind::Dirt
            } else {
                old(chunk).block(a, b, c)
            },
{
    let ghost c0 = *chunk;
    let mut pos = start;
    let mut i: usize = 0;
    while i < steps.len()
        invariant
            i <= steps@.len(),
            chunk.wf(),
            chunk.coords() == c0.coords(),
            in_chunk(pos.0 as int, pos.1 as int, pos.2 as int),
            pos == dig_end(start, steps@.take(i as int)),
            forall|a: int, b: int, c: int|
                in_chunk(a, b, c) ==> #[trigger] chunk.block(a, b, c) == if on_path(dig_path(start, steps@.take(i as int)), a, b, c) {
                    PaletteBlockKind::Dirt
                } else {
                    c0.block(a, b, c)
                },
        decreases steps@.len() - i,
    {
        let (draw, negate) = steps[i];
        let ghost before = *chunk;
        let ghost path = dig_path(start, steps@.take(i as int));
        let ghost pre = steps@.take(i as int);
        let ghost post = steps@.take(i + 1);
        let next = dig_step(chunk, pos, draw, negate);
        proof {
            assert(post.drop_last() =~= pre);
            assert(post.last() == (draw, negate));
            assert(dig_path(start, post) == path.push(pos));
            assert forall|a: int, b: int, c: int| in_chunk(a, b, c) implies #[trigger] chunk.block(a, b, c) == if on_path(
                path.push(pos),
                a,
                b,
                c,
            ) {
                PaletteBlockKind::Dirt
            } else {
                c0.block(a, b, c)
            } by {
                let q = path.push(pos);
                if on_path(path, a, b, c) {
                    let k = choose|k: int| 0 <= k < path.len() && path[k].0 == a && path[k].1 == b && #[trigger] path[k].2 == c;
                    assert(q[k] == path[k]);
                }
                if (a, b, c) == (pos.0 as int, pos.1 as int, pos.2 as int) {
                    assert(q[path.len() as int] == pos);
                } else {
                    assert(chunk.block(a, b, c) == before.block(a, b, c));
                    if on_path(q, a, b, c) {
                        let k = choose|k: int| 0 <= k < q.len() && q[k].0 == a && q[k].1 == b && #[trigger] q[k].2 == c;
                        assert(k < path.len());
                        assert(path[k] == q[k]);
                    }
                }
            }
        }
        pos = next;
        i += 1;
    }
    assert(steps@.take(steps@.len() as int) =~= steps@);
    pos
}

/// What a dungeon round (lx, y, lz) puts at block (a, b, c), if anything: gold
/// in the middle, cobblestone three blocks out on each axis, and walls along
/// the three axes from three blocks before the middle up to two after it.
pub open spec fn dungeon_kind(lx: int, y: int, lz: int, a: int, b: int, c: int) -> Option<PaletteBlockKind> {
    if a == lx && b == y && c == lz {
        Some(PaletteBlockKind::GoldBlock)
    } else if (b == y && c == lz && (a == lx - 3 || a == lx + 3)) || (a == lx && c == lz && (b == y - 3 || b
        == y + 3)) || (a == lx && b == y && (c == lz - 3 || c == lz + 3)) {
        Some(PaletteBlockKind::Cobblestone)
    } else if b == y && c == lz && lx - 3 <= a < lx + 3 {
        Some(PaletteBlockKind::CobblestoneWallXF)
    } else if a == lx && c == lz && y - 3 <= b < y + 3 {
        Some(PaletteBlockKind::CobblestoneWall)
    } else if a == lx && b == y && lz - 3 <= c < lz + 3 {
        Some(PaletteBlockKind::CobblestoneWallZF)
    } else {
        None
    }
}

/// Where a dungeon goes: at the one cave centre of the chunk, when the scan
/// met exactly one cave column in its middle and none of the four
/// neighbouring chunks has a cave.
pub fn dungeon_site(scan: &CaveScan, neighbour_caves: &[bool; 4]) -> (r: Option<(u32, i32, u32)>)
    ensures
        r == if scan.is_single_cave && !(neighbour_caves@[0] || neighbour_caves@[1] || neighbour_caves@[2]
            || neighbour_caves@[3]) {
            scan.cave
        } else {
            None
        },
{
    if scan.is_single_cave && !(neighbour_caves[0] || neighbour_caves[1] || neighbour_caves[2] || neighbour_caves[3]) {
        scan.cave
    } else {
        None
    }
}

/// Whether (a, b, c) is one of the first `n` blocks from `start` along axis
/// `axis` (0 for x, 1 for y, 2 for z).
pub open spec fn on_run(start: (u32, i32, u32), axis: u8, n: int, a: int, b: int, c: int) -> bool {
    if axis == 0 {
        b == start.1 && c == start.2 && start.0 <= a < start.0 + n
    } else if axis == 1 {
        a == start.0 && c == start.2 && start.1 <= b < start.1 + n
    } else {
        a == start.0 && b == start.1 && start.2 <= c < start.2 + n
    }
}

/// A run of six blocks of `kind` from `start` along `axis`.
fn set_run(chunk: &mut Chunk, start: (u32, i32, u32), axis: u8, kind: PaletteBlockKind)
    requires
        old(chunk).wf(),
        axis < 3,
        in_chunk(start.0 as int, start.1 as int, start.2 as int),
        axis == 0 ==> start.0 + 5 < 16,
        axis == 1 ==> start.1 + 5 < 320,
        axis == 2 ==> start.2 + 5 < 16,
    ensures
        final(chunk).wf(),
        final(chunk).coords() == old(chunk).coords(),
        forall|a: int, b: int, c: int|
            in_chunk(a, b, c) ==> #[trigger] final(chunk).block(a, b, c) == if on_run(start, axis, 6, a, b, c) {
                kind
            } else {
                old(chunk).block(a, b, c)
            },
{
    let mut i: u32 = 0;
    while i < 6
        invariant
            i <= 6,
            axis < 3,
            in_chunk(start.0 as int, start.1 as int, start.2 as int),
            axis == 0 ==> start.0 + 5 < 16,
            axis == 1 ==> start.1 + 5 < 320,
            axis == 2 ==> start.2 + 5 < 16,
            chunk.wf(),
            chunk.coords() == old(chunk).coords(),
            forall|a: int, b: int, c: int|
                in_chunk(a, b, c) ==> #[trigger] chunk.block(a, b, c) == if on_run(start, axis, i as int, a, b, c) {
                    kind
                } else {
                    old(chunk).block(a, b, c)
                },
        decreases 6 - i,
    {
        let (x, y, z) = if axis == 0 {
            (start.0 + i, start.1, start.2)
        } else if axis == 1 {
            (start.0, start.1 + i as i32, start.2)
        } else {
            (start.0, start.1, start.2 + i)
        };
        chunk.set_block_local(x, y, z, kind);
        i += 1;
    }
}

/// Builds the dungeon round (lx, y, lz): walls along x, then y, then z, the
/// cobblestone ends, and the gold block in the middle. Every block that
/// `dungeon_kind` names gets that kind; every other block stays.
pub fn place_dungeon(chunk: &mut Chunk, lx: u32, y: i32, lz: u32)
    requires
        old(chunk).wf(),
        3 <= lx <= 12,
        3 <= lz <= 12,
        -61 <= y <= 316,
    ensures
        final(chunk).wf(),
        final(chunk).coords() == old(chunk).coords(),
        forall|a: int, b: int, c: int|
            in_chunk(a, b, c) ==> #[trigger] final(chunk).block(a, b, c) == match dungeon_kind(lx as int, y as int, lz as int, a, b, c) {
                Some(k) => k,
                None => old(chunk).block(a, b, c),
            },
{
    set_run(chunk, (lx - 3, y, lz), 0, PaletteBlockKind::CobblestoneWallXF);
    set_run(chunk, (lx, y - 3, lz), 1, PaletteBlockKind::CobblestoneWall);
    set_run(chunk, (lx, y, lz - 3), 2, PaletteBlockKind::CobblestoneWallZF);
    chunk.set_block_local(lx - 3, y, lz, PaletteBlockKind::Cobblestone);
    chunk.set_block_local(lx + 3, y, lz, PaletteBlockKind::Cobblestone);
    chunk.set_block_local(lx, y - 3, lz, PaletteBlockKind::Cobblestone);
    chunk.set_block_local(lx, y + 3, lz, PaletteBlockKind::Cobblestone);
    chunk.set_block_local(lx, y, lz - 3, PaletteBlockKind::Cobblestone);
    chunk.set_block_local(lx, y, lz + 3, PaletteBlockKind::Cobblestone);
    chunk.set_block_local(lx, y, lz, PaletteBlockKind::GoldBlock);
}

} // verus!
