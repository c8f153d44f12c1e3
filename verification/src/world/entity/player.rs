//! Which chunks a player has been sent, and which are waiting to be sent.
use vstd::prelude::*;

use std::collections::HashSet;
use vstd::std_specs::hash::spec_hash_keys_iter;
use vstd::std_specs::iter::IteratorSpec;

use crate::codecs::position::packed_position;
use crate::proto::packets::play::ScBlockUpdate;
use crate::world::level::{
    block_update, chunk_key, chunk_of, is_within_radius, key_of, key_pos, keyed_chunks, lemma_chunk_key,
    lemma_chunk_key_injective, pos_of, sq_dist_fits_i32_check, sq_dist, sq_dist_fits_i32, within_radius, ChunkPos, Level,
};
use crate::world::palette::{minecraft_id, PaletteBlockKind};

verus! {

/// An item, by its protocol id.
pub type Item = i32;

/// The most chunks sent in one tick: the area of the view circle, pi r^2
/// rounded up, but never more than five. pi r^2 rounds up to 0 for r = 0, to
/// 4 for r = 1 and to at least 13 for any larger r.
pub open spec fn chunks_per_tick(radius: i32) -> nat {
    if radius == 0 {
        0
    } else if radius == 1 || radius == -1 {
        4
    } else {
        5
    }
}

/// The chunks of the square of side 2r + 1 around `center`, row by row in x,
/// then in z within a row.
pub open spec fn view_square(center: ChunkPos, radius: i32) -> Seq<ChunkPos> {
    let side = 2 * radius + 1;
    if radius < 0 {
        Seq::empty()
    } else {
        Seq::new(
            (side * side) as nat,
            |i: int| ((center.0 + (i / side - radius)) as i32, (center.1 + (i % side - radius)) as i32),
        )
    }
}

/// The chunks of the view circle around `center`, in the square's order.
pub open spec fn view_circle(center: ChunkPos, radius: i32) -> Seq<ChunkPos> {
    view_square(center, radius).filter(|p: ChunkPos| within_radius(p, center, radius))
}

/// Appends each candidate that is neither sent nor queued yet.
pub open spec fn enqueue_unseen(queue: Seq<ChunkPos>, sent: Set<ChunkPos>, cands: Seq<ChunkPos>) -> Seq<ChunkPos>
    decreases cands.len(),
{
    if cands.len() == 0 {
        queue
    } else {
        let q = enqueue_unseen(queue, sent, cands.drop_last());
        let c = cands.last();
        if sent.contains(c) || q.contains(c) {
            q
        } else {
            q.push(c)
        }
    }
}

/// Where `p` goes in `sorted`: after every chunk at most as far from `center`.
pub open spec fn insert_position(sorted: Seq<ChunkPos>, p: ChunkPos, center: ChunkPos) -> nat
    decreases sorted.len(),
{
    if sorted.len() == 0 {
        0
    } else if sq_dist(sorted.last(), center) <= sq_dist(p, center) {
        sorted.len()
    } else {
        insert_position(sorted.drop_last(), p, center)
    }
}

/// The chunks in order of distance from `center`; chunks at the same
/// distance keep their order.
pub open spec fn sort_by_distance(s: Seq<ChunkPos>, center: ChunkPos) -> Seq<ChunkPos>
    decreases s.len(),
{
    if s.len() == 0 {
        s
    } else {
        let sorted = sort_by_distance(s.drop_last(), center);
        sorted.insert(insert_position(sorted, s.last(), center) as int, s.last())
    }
}

/// Sends the chunks in turn, skipping any already sent: the chunks sent then,
/// and the chunks sent now.
pub open spec fn send_in_turn(sent: Set<ChunkPos>, items: Seq<ChunkPos>) -> (Set<ChunkPos>, Seq<ChunkPos>)
    decreases items.len(),
{
    if items.len() == 0 {
        (sent, Seq::empty())
    } else {
        let (s, out) = send_in_turn(sent, items.drop_last());
        if s.contains(items.last()) {
            (s, out)
        } else {
            (s.insert(items.last()), out.push(items.last()))
        }
    }
}

/// The chunks that a player has been sent and the chunks queued for it.
pub struct ChunkTracker {
    sent_chunks: HashSet<u64>,
    chunk_queue: Vec<ChunkPos>,
}

impl ChunkTracker {
    /// The chunks the player has been sent.
    pub closed spec fn sent(&self) -> Set<ChunkPos> {
        keyed_chunks(self.sent_chunks@)
    }

    /// The chunks waiting to be sent, in order.
    pub closed spec fn queue(&self) -> Seq<ChunkPos> {
        self.chunk_queue@
    }

    /// The queue holds each chunk once, and no chunk already sent.
    pub open spec fn queue_fresh(&self) -> bool {
        &&& self.queue().no_duplicates()
        &&& forall|p: ChunkPos| #[trigger] self.queue().contains(p) ==> !self.sent().contains(p)
    }

    /// Whether planning around `center` with `radius` stays within the
    /// integer ranges that the arithmetic uses.
    pub open spec fn plan_fits(&self, center: ChunkPos, radius: i32) -> bool {
        &&& radius * radius <= i32::MAX
        &&& i32::MIN <= center.0 - radius && center.0 + radius <= i32::MAX
        &&& i32::MIN <= center.1 - radius && center.1 + radius <= i32::MAX
        &&& i32::MIN <= center.0 + radius && center.0 - radius <= i32::MAX
        &&& i32::MIN <= center.1 + radius && center.1 - radius <= i32::MAX
        &&& forall|p: ChunkPos| #[trigger] self.queue().contains(p) ==> sq_dist(p, center) <= i64::MAX
    }

    pub fn new() -> (r: Self)
        ensures
            r.sent() == Set::<ChunkPos>::empty(),
            r.queue() == Seq::<ChunkPos>::empty(),
            r.queue_fresh(),
    {
        let r = Self { sent_chunks: HashSet::new(), chunk_queue: Vec::new() };
        assert(r.sent() =~= Set::<ChunkPos>::empty());
        r
    }

    /// What this player is told when the block at world (wx, wy, wz) becomes
    /// `kind`: the block update, when the player has been sent the block's
    /// chunk, and nothing otherwise.
    pub fn block_update_for(&self, wx: i32, wy: i32, wz: i32, kind: PaletteBlockKind) -> (r: Option<ScBlockUpdate>)
        ensures
            r is Some <==> self.sent().contains(chunk_of(wx as int, wz as int)),
            r matches Some(u) ==> u.location.0 as u64 == packed_position(wx as i64, wy as i64, wz as i64)
                && u.global_block_id == minecraft_id(kind) as i32,
    {
        let cpos = Level::world_to_chunk(wx, wz);
        if self.has_seen_chunk(cpos) {
            Some(block_update(wx, wy, wz, kind))
        } else {
            None
        }
    }

    pub fn has_seen_chunk(&self, pos: ChunkPos) -> (r: bool)
        ensures
            r == self.sent().contains(pos),
    {
        self.sent_chunks.contains(&key_of(pos))
    }

    /// The queue before sorting: the queued chunks still within `radius` of
    /// `center`, then each chunk of the view circle neither sent nor queued.
    pub open spec fn refilled_queue(&self, center: ChunkPos, radius: i32) -> Seq<ChunkPos> {
        enqueue_unseen(
            self.queue().filter(|p: ChunkPos| within_radius(p, center, radius)),
            self.sent(),
            view_circle(center, radius),
        )
    }

    /// The queue after refilling and sorting by distance.
    pub open spec fn planned_queue(&self, center: ChunkPos, radius: i32) -> Seq<ChunkPos> {
        sort_by_distance(self.refilled_queue(center, radius), center)
    }

    /// How many chunks of the planned queue are taken this tick.
    pub open spec fn planned_count(&self, center: ChunkPos, radius: i32) -> nat {
        let n = self.planned_queue(center, radius).len();
        if n < chunks_per_tick(radius) {
            n
        } else {
            chunks_per_tick(radius)
        }
    }

    /// Whether `p` is queued.
    fn queue_contains(q: &Vec<ChunkPos>, p: ChunkPos) -> (r: bool)
        ensures
            r == q@.contains(p),
    {
        let mut i: usize = 0;
        while i < q.len()
            invariant
                i <= q@.len(),
                forall|j: int| 0 <= j < i ==> q@[j] != p,
            decreases q@.len() - i,
        {
            if q[i].0 == p.0 && q[i].1 == p.1 {
                assert(q@[i as int] == p);
                return true;
            }
            i += 1;
        }
        false
    }

    /// Whether `plan_sends` can run for this center and radius.
    pub fn plan_fits_check(&self, center: ChunkPos, radius: i32) -> (r: bool)
        ensures
            r == self.plan_fits(center, radius),
    {
        let r = radius as i64;
        assert(0 <= r * r <= 0x4000_0000_0000_0000) by (nonlinear_arith)
            requires
                -0x8000_0000 <= r <= 0x8000_0000,
        ;
        if r * r > i32::MAX as i64 {
            return false;
        }
        let (cx, cz) = (center.0 as i64, center.1 as i64);
        if !(i32::MIN as i64 <= cx - r && cx + r <= i32::MAX as i64 && i32::MIN as i64 <= cz - r && cz + r <= i32::MAX as i64 && i32::MIN as i64 <= cx + r && cx - r <= i32::MAX as i64 && i32::MIN as i64 <= cz + r && cz - r <= i32::MAX as i64) {
            return false;
        }
        let mut i: usize = 0;
        while i < self.chunk_queue.len()
            invariant
                i <= self.chunk_queue@.len(),
                forall|j: int| 0 <= j < i ==> sq_dist(#[trigger] self.chunk_queue@[j], center) <= i64::MAX,
            decreases self.chunk_queue@.len() - i,
        {
            let p = self.chunk_queue[i];
            let dx = p.0 as i128 - center.0 as i128;
            let dz = p.1 as i128 - center.1 as i128;
            assert(0 <= dx * dx <= 0x1_0000_0000_0000_0000) by (nonlinear_arith)
                requires
                    -0x1_0000_0000 <= dx <= 0x1_0000_0000,
            ;
            assert(0 <= dz * dz <= 0x1_0000_0000_0000_0000) by (nonlinear_arith)
                requires
                    -0x1_0000_0000 <= dz <= 0x1_0000_0000,
            ;
            if dx * dx + dz * dz > i64::MAX as i128 {
                assert(self.queue().contains(p));
                return false;
            }
            i += 1;
        }
        proof {
            assert forall|p: ChunkPos| #[trigger] self.queue().contains(p) implies sq_dist(p, center) <= i64::MAX by {
                let j = choose|j: int| 0 <= j < self.chunk_queue@.len() && self.chunk_queue@[j] == p;
            }
        }
        true
    }
}

/// The chunks of `q` within `radius` of `center`, distances computed in 64 bits.
fn retain_within(q: &Vec<ChunkPos>, center: ChunkPos, radius: i32) -> (r: Vec<ChunkPos>)
    requires
        forall|p: ChunkPos| #[trigger] q@.contains(p) ==> sq_dist(p, center) <= i64::MAX,
        radius * radius <= i32::MAX,
    ensures
        r@ == q@.filter(|p: ChunkPos| within_radius(p, center, radius)),
{
    let mut out: Vec<ChunkPos> = Vec::new();
    let mut i: usize = 0;
    let rr = radius as i64;
    assert(0 <= rr * rr <= i32::MAX) by (nonlinear_arith)
        requires
            rr * rr == radius * radius,
            radius * radius <= i32::MAX,
    ;
    while i < q.len()
        invariant
            i <= q@.len(),
            rr == radius,
            0 <= rr * rr <= i32::MAX,
            forall|p: ChunkPos| #[trigger] q@.contains(p) ==> sq_dist(p, center) <= i64::MAX,
            out@ == q@.take(i as int).filter(|p: ChunkPos| within_radius(p, center, radius)),
        decreases q@.len() - i,
    {
        let p = q[i];
        assert(q@.contains(p));
        let dx = p.0 as i64 - center.0 as i64;
        let dz = p.1 as i64 - center.1 as i64;
        assert(0 <= dx * dx && 0 <= dz * dz) by (nonlinear_arith);
        assert(dx * dx + dz * dz == sq_dist(p, center));
        let keep = dx * dx + dz * dz <= rr * rr;
        if keep {
            out.push(p);
        }
        proof {
            reveal(Seq::filter);
            assert(q@.take(i + 1).drop_last() =~= q@.take(i as int));
        }
        i += 1;
    }
    assert(q@.take(q@.len() as int) =~= q@);
    out
}

/// Whether `p` is among `v`.
fn vec_contains(v: &Vec<ChunkPos>, p: ChunkPos) -> (r: bool)
    ensures
        r == v@.contains(p),
{
    let mut i: usize = 0;
    while i < v.len()
        invariant
            i <= v@.len(),
            forall|j: int| 0 <= j < i ==> v@[j] != p,
        decreases v@.len() - i,
    {
        if v[i].0 == p.0 && v[i].1 == p.1 {
            assert(v@[i as int] == p);
            return true;
        }
        i += 1;
    }
    false
}

/// Queues each chunk of the view circle that is neither sent nor queued.
fn enqueue_view_circle(q: &mut Vec<ChunkPos>, sent: &HashSet<u64>, center: ChunkPos, radius: i32)
    requires
        radius * radius <= i32::MAX,
        i32::MIN <= center.0 - radius && center.0 + radius <= i32::MAX,
        i32::MIN <= center.1 - radius && center.1 + radius <= i32::MAX,
    ensures
        final(q)@ == enqueue_unseen(old(q)@, keyed_chunks(sent@), view_circle(center, radius)),
{
    if radius < 0 {
        proof {
            reveal(Seq::filter);
            assert(view_circle(center, radius) =~= Seq::<ChunkPos>::empty());
        }
        return;
    }
    let r = radius as i64;
    let side: i64 = 2 * r + 1;
    assert(radius <= 46341) by (nonlinear_arith)
        requires
            radius * radius <= i32::MAX,
            radius >= 0,
    ;
    assert(0 < side * side <= 0x2_0000_0000_0000) by (nonlinear_arith)
        requires
            0 < side <= 92683,
    ;
    let total: i64 = side * side;
    let ghost square = view_square(center, radius);
    assert(square.len() == total);
    let mut i: i64 = 0;
    assert(square.take(0) =~= Seq::<ChunkPos>::empty());
    proof {
        reveal(Seq::filter);
    }
    while i < total
        invariant
            0 <= i <= total,
            r == radius,
            0 <= radius <= 46341,
            side == 2 * r + 1,
            total == side * side,
            square == view_square(center, radius),
            square.len() == total,
            radius * radius <= i32::MAX,
            i32::MIN <= center.0 - radius && center.0 + radius <= i32::MAX,
            i32::MIN <= center.1 - radius && center.1 + radius <= i32::MAX,
            q@ == enqueue_unseen(old(q)@, keyed_chunks(sent@), square.take(i as int).filter(|p: ChunkPos| within_radius(p, center, radius))),
        decreases total - i,
    {
        let a = i / side;
        let b = i % side;
        assert(0 <= a < side && 0 <= b < side) by (nonlinear_arith)
            requires
                0 <= i < side * side,
                side > 0,
                a == i / side,
                b == i % side,
        ;
        let x = a - r;
        let z = b - r;
        assert(0 <= x * x <= r * r && 0 <= z * z <= r * r) by (nonlinear_arith)
            requires
                -r <= x <= r,
                -r <= z <= r,
        ;
        let pos: ChunkPos = ((center.0 as i64 + x) as i32, (center.1 as i64 + z) as i32);
        assert(square[i as int] == pos);
        assert(sq_dist(pos, center) == x * x + z * z);
        proof {
            reveal(Seq::filter);
            assert(square.take(i + 1).drop_last() =~= square.take(i as int));
            assert(square.take(i + 1).last() == pos);
            assert(keyed_chunks(sent@).contains(pos) == sent@.contains(chunk_key(pos)));
        }
        let ghost pred = |p: ChunkPos| within_radius(p, center, radius);
        let ghost f = square.take(i as int).filter(pred);
        let ghost f2 = square.take(i + 1).filter(pred);
        if x * x + z * z <= r * r {
            assert(f2 == f.push(pos));
            assert(f.push(pos).drop_last() =~= f);
            assert(f.push(pos).last() == pos);
            if !sent.contains(&key_of(pos)) && !vec_contains(q, pos) {
                q.push(pos);
            }
        } else {
            assert(f2 == f);
        }
        i += 1;
    }
    assert(square.take(total as int) =~= square);
}

/// The squared distance from `p` to `center`, in 32 bits.
fn dist_key(p: ChunkPos, center: ChunkPos) -> (r: i32)
    requires
        sq_dist_fits_i32(p, center),
    ensures
        r == sq_dist(p, center),
{
    let dx = p.0 - center.0;
    let dz = p.1 - center.1;
    assert(0 <= dx * dx && 0 <= dz * dz) by (nonlinear_arith);
    dx * dx + dz * dz
}

/// Sorting keeps the chunks and their count.
pub proof fn lemma_sort_by_distance_contents(s: Seq<ChunkPos>, center: ChunkPos)
    ensures
        sort_by_distance(s, center).len() == s.len(),
        forall|p: ChunkPos| #[trigger] sort_by_distance(s, center).contains(p) <==> s.contains(p),
    decreases s.len(),
{
    if s.len() > 0 {
        let init = s.drop_last();
        lemma_sort_by_distance_contents(init, center);
        let sorted = sort_by_distance(init, center);
        lemma_insert_position_bound(sorted, s.last(), center);
        let k = insert_position(sorted, s.last(), center) as int;
        let r = sorted.insert(k, s.last());
        assert forall|p: ChunkPos| #[trigger] r.contains(p) <==> s.contains(p) by {
            if r.contains(p) {
                let j = choose|j: int| 0 <= j < r.len() && r[j] == p;
                if j < k {
                    assert(sorted[j] == p);
                    assert(sorted.contains(p));
                    let m = choose|m: int| 0 <= m < init.len() && #[trigger] init[m] == p;
                    assert(s[m] == p);
                } else if j == k {
                    assert(s[s.len() - 1] == p);
                } else {
                    assert(sorted[j - 1] == p);
                    assert(sorted.contains(p));
                    let m = choose|m: int| 0 <= m < init.len() && #[trigger] init[m] == p;
                    assert(s[m] == p);
                }
            }
            if s.contains(p) {
                let j = choose|j: int| 0 <= j < s.len() && s[j] == p;
                if j == s.len() - 1 {
                    assert(r[k] == p);
                } else {
                    assert(init[j] == p);
                    assert(init.contains(p));
                    assert(sorted.contains(p));
                    let m = choose|m: int| 0 <= m < sorted.len() && #[trigger] sorted[m] == p;
                    if m < k {
                        assert(r[m] == p);
                    } else {
                        assert(r[m + 1] == p);
                    }
                }
            }
        }
    }
}

/// Sending in turn never sends a chunk twice, nor one sent before: what is
/// sent now is free of repeats and of the chunks already sent, and afterwards
/// the sent chunks are those of before and those sent now.
pub proof fn lemma_send_in_turn_fresh(sent: Set<ChunkPos>, items: Seq<ChunkPos>)
    ensures
        send_in_turn(sent, items).1.no_duplicates(),
        forall|p: ChunkPos| #[trigger] send_in_turn(sent, items).1.contains(p) ==> !sent.contains(p) && items.contains(p),
        send_in_turn(sent, items).0 == sent + send_in_turn(sent, items).1.to_set(),
    decreases items.len(),
{
    if items.len() > 0 {
        let prev = items.drop_last();
        lemma_send_in_turn_fresh(sent, prev);
        let (s, out) = send_in_turn(sent, prev);
        let c = items.last();
        assert forall|p: ChunkPos| #[trigger] prev.contains(p) implies items.contains(p) by {
            let i = choose|i: int| 0 <= i < prev.len() && prev[i] == p;
            assert(items[i] == p);
        }
        assert(items[items.len() - 1] == c);
        if !s.contains(c) {
            lemma_push_contains(out, c);
            lemma_push_to_set(out, c);
            assert forall|p: ChunkPos| #[trigger] out.push(c).contains(p) implies !sent.contains(p) && items.contains(p) by {
                if p == c {
                    if sent.contains(c) {
                        assert(s.contains(c));
                    }
                } else {
                    assert(send_in_turn(sent, prev).1.contains(p));
                }
            }
            assert forall|a: int, b: int| 0 <= a < b < out.push(c).len() implies out.push(c)[a] != out.push(c)[b] by {
                if b == out.len() {
                    assert(out.contains(out[a]));
                }
            }
            assert(s.insert(c) =~= sent + out.push(c).to_set());
        }
    }
}

proof fn lemma_insert_position_bound(sorted: Seq<ChunkPos>, p: ChunkPos, center: ChunkPos)
    ensures
        insert_position(sorted, p, center) <= sorted.len(),
    decreases sorted.len(),
{
    if sorted.len() > 0 {
        lemma_insert_position_bound(sorted.drop_last(), p, center);
    }
}

/// The chunks in order of distance from `center`; ties keep their order.
fn sort_queue(q: Vec<ChunkPos>, center: ChunkPos) -> (r: Vec<ChunkPos>)
    requires
        forall|p: ChunkPos| #[trigger] q@.contains(p) ==> sq_dist_fits_i32(p, center),
    ensures
        r@ == sort_by_distance(q@, center),
{
    let mut sorted: Vec<ChunkPos> = Vec::new();
    let mut i: usize = 0;
    assert(q@.take(0) =~= Seq::<ChunkPos>::empty());
    while i < q.len()
        invariant
            i <= q@.len(),
            forall|p: ChunkPos| #[trigger] q@.contains(p) ==> sq_dist_fits_i32(p, center),
            sorted@ == sort_by_distance(q@.take(i as int), center),
        decreases q@.len() - i,
    {
        let e = q[i];
        assert(q@.contains(e));
        let ke = dist_key(e, center);
        proof {
            lemma_sort_by_distance_contents(q@.take(i as int), center);
        }
        let mut j = sorted.len();
        let ghost whole = sorted@;
        proof {
            assert(whole.take(j as int) =~= whole);
            assert forall|p: ChunkPos| #[trigger] sorted@.contains(p) implies sq_dist_fits_i32(p, center) by {
                assert(q@.take(i as int).contains(p));
                let m = choose|m: int| 0 <= m < i && #[trigger] q@.take(i as int)[m] == p;
                assert(q@[m] == p);
                assert(q@.contains(p));
            }
        }
        while j > 0
            invariant
                j <= sorted@.len(),
                sorted@ == whole,
                ke == sq_dist(e, center),
                forall|p: ChunkPos| #[trigger] sorted@.contains(p) ==> sq_dist_fits_i32(p, center),
                insert_position(whole, e, center) == insert_position(whole.take(j as int), e, center),
            ensures
                j <= whole.len(),
                sorted@ == whole,
                j == insert_position(whole, e, center),
            decreases j,
        {
            let prev = sorted[j - 1];
            assert(sorted@.contains(prev));
            if dist_key(prev, center) <= ke {
                assert(whole.take(j as int).last() == prev);
                break ;
            }
            assert(whole.take(j as int).drop_last() =~= whole.take(j - 1));
            j -= 1;
        }
        proof {
            assert(q@.take(i + 1).drop_last() =~= q@.take(i as int));
            assert(q@.take(i + 1).last() == e);
        }
        sorted.insert(j, e);
        i += 1;
    }
    assert(q@.take(q@.len() as int) =~= q@);
    sorted
}

/// Every chunk that refilling queues is one that was queued or a candidate.
proof fn lemma_enqueue_unseen_from(queue: Seq<ChunkPos>, sent: Set<ChunkPos>, cands: Seq<ChunkPos>, p: ChunkPos)
    requires
        enqueue_unseen(queue, sent, cands).contains(p),
    ensures
        queue.contains(p) || cands.contains(p),
    decreases cands.len(),
{
    if cands.len() > 0 {
        let q = enqueue_unseen(queue, sent, cands.drop_last());
        let c = cands.last();
        if q.contains(p) {
            lemma_enqueue_unseen_from(queue, sent, cands.drop_last(), p);
            if cands.drop_last().contains(p) {
                let j = choose|j: int| 0 <= j < cands.drop_last().len() && cands.drop_last()[j] == p;
                assert(cands[j] == p);
            }
        } else {
            assert(cands[cands.len() - 1] == p);
        }
    }
}

proof fn lemma_push_to_set(v: Seq<ChunkPos>, p: ChunkPos)
    ensures
        v.push(p).to_set() == v.to_set().insert(p),
{
    lemma_push_contains(v, p);
    assert(v.push(p).to_set() =~= v.to_set().insert(p));
}

proof fn lemma_push_contains(v: Seq<ChunkPos>, p: ChunkPos)
    ensures
        forall|x: ChunkPos| #[trigger] v.push(p).contains(x) <==> (v.contains(x) || x == p),
{
    assert forall|x: ChunkPos| #[trigger] v.push(p).contains(x) <==> (v.contains(x) || x == p) by {
        if v.contains(x) {
            let m = choose|m: int| 0 <= m < v.len() && #[trigger] v[m] == x;
            assert(v.push(p)[m] == x);
        }
        if x == p {
            assert(v.push(p)[v.len() as int] == p);
        }
        if v.push(p).contains(x) {
            let m = choose|m: int| 0 <= m < v.len() + 1 && #[trigger] v.push(p)[m] == x;
            if m < v.len() {
                assert(v[m] == x);
            }
        }
    }
}

proof fn lemma_take_push_contains(s: Seq<ChunkPos>, i: int)
    requires
        0 <= i < s.len(),
    ensures
        forall|x: ChunkPos| #[trigger] s.take(i + 1).contains(x) <==> (s.take(i).contains(x) || s[i] == x),
{
    assert(s.take(i + 1) =~= s.take(i).push(s[i]));
    lemma_push_contains(s.take(i), s[i]);
}

/// A list without repeats stays so without its last chunk, which it holds
/// no more.
proof fn lemma_drop_last_fresh(s: Seq<ChunkPos>)
    requires
        s.len() > 0,
        s.no_duplicates(),
    ensures
        s.drop_last().no_duplicates(),
        !s.drop_last().contains(s.last()),
        forall|p: ChunkPos| #[trigger] s.drop_last().contains(p) ==> s.contains(p),
{
    let init = s.drop_last();
    assert forall|i: int, j: int| 0 <= i < init.len() && 0 <= j < init.len() && i != j implies init[i] != init[j] by {
        assert(init[i] == s[i] && init[j] == s[j]);
    }
    if init.contains(s.last()) {
        let j = choose|j: int| 0 <= j < init.len() && init[j] == s.last();
        assert(s[j] == s[s.len() - 1]);
    }
    assert forall|p: ChunkPos| #[trigger] init.contains(p) implies s.contains(p) by {
        let j = choose|j: int| 0 <= j < init.len() && init[j] == p;
        assert(s[j] == p);
    }
}

/// Appending a chunk a list does not hold keeps it free of repeats.
proof fn lemma_push_fresh(v: Seq<ChunkPos>, p: ChunkPos)
    requires
        v.no_duplicates(),
        !v.contains(p),
    ensures
        v.push(p).no_duplicates(),
{
    let w = v.push(p);
    assert forall|a: int, b: int| 0 <= a < w.len() && 0 <= b < w.len() && a != b implies w[a] != w[b] by {
        if a == v.len() {
            assert(w[b] == v[b]);
            assert(v.contains(v[b]));
        } else if b == v.len() {
            assert(w[a] == v[a]);
            assert(v.contains(v[a]));
        } else {
            assert(w[a] == v[a] && w[b] == v[b]);
        }
    }
}

/// Inserting a chunk a list does not hold keeps it free of repeats.
proof fn lemma_insert_fresh(v: Seq<ChunkPos>, k: int, x: ChunkPos)
    requires
        v.no_duplicates(),
        !v.contains(x),
        0 <= k <= v.len(),
    ensures
        v.insert(k, x).no_duplicates(),
{
    let w = v.insert(k, x);
    assert forall|a: int, b: int| 0 <= a < w.len() && 0 <= b < w.len() && a != b implies w[a] != w[b] by {
        if a == k {
            let b2 = if b < k { b } else { b - 1 };
            assert(w[b] == v[b2]);
            assert(v.contains(v[b2]));
        } else if b == k {
            let a2 = if a < k { a } else { a - 1 };
            assert(w[a] == v[a2]);
            assert(v.contains(v[a2]));
        } else {
            let a2 = if a < k { a } else { a - 1 };
            let b2 = if b < k { b } else { b - 1 };
            assert(w[a] == v[a2] && w[b] == v[b2]);
        }
    }
}

/// Filtering a list without repeats gives one without repeats, of its chunks.
proof fn lemma_filter_fresh(q: Seq<ChunkPos>, pred: spec_fn(ChunkPos) -> bool)
    requires
        q.no_duplicates(),
    ensures
        q.filter(pred).no_duplicates(),
        forall|p: ChunkPos| #[trigger] q.filter(pred).contains(p) ==> q.contains(p),
    decreases q.len(),
{
    reveal(Seq::filter);
    if q.len() > 0 {
        let init = q.drop_last();
        lemma_drop_last_fresh(q);
        lemma_filter_fresh(init, pred);
        let f = init.filter(pred);
        if pred(q.last()) {
            assert(q.filter(pred) == f.push(q.last()));
            lemma_push_fresh(f, q.last());
            lemma_push_contains(f, q.last());
        } else {
            assert(q.filter(pred) == f);
        }
    }
}

/// Queueing the unseen candidates keeps a queue without repeats and without
/// sent chunks so.
proof fn lemma_enqueue_fresh(q: Seq<ChunkPos>, sent: Set<ChunkPos>, cands: Seq<ChunkPos>)
    requires
        q.no_duplicates(),
        forall|p: ChunkPos| #[trigger] q.contains(p) ==> !sent.contains(p),
    ensures
        enqueue_unseen(q, sent, cands).no_duplicates(),
        forall|p: ChunkPos| #[trigger] enqueue_unseen(q, sent, cands).contains(p) ==> !sent.contains(p),
    decreases cands.len(),
{
    if cands.len() > 0 {
        lemma_enqueue_fresh(q, sent, cands.drop_last());
        let r = enqueue_unseen(q, sent, cands.drop_last());
        let c = cands.last();
        if !(sent.contains(c) || r.contains(c)) {
            lemma_push_fresh(r, c);
            lemma_push_contains(r, c);
        }
    }
}

/// Sorting a list without repeats gives one without repeats.
proof fn lemma_sort_fresh(s: Seq<ChunkPos>, center: ChunkPos)
    requires
        s.no_duplicates(),
    ensures
        sort_by_distance(s, center).no_duplicates(),
    decreases s.len(),
{
    if s.len() > 0 {
        let init = s.drop_last();
        lemma_drop_last_fresh(s);
        lemma_sort_fresh(init, center);
        lemma_sort_by_distance_contents(init, center);
        let sorted = sort_by_distance(init, center);
        lemma_insert_position_bound(sorted, s.last(), center);
        lemma_insert_fresh(sorted, insert_position(sorted, s.last(), center) as int, s.last());
    }
}

/// Sending chunks in turn that are all distinct and none sent before sends
/// every one of them, in order.
proof fn lemma_send_in_turn_all(sent: Set<ChunkPos>, items: Seq<ChunkPos>)
    requires
        items.no_duplicates(),
        forall|p: ChunkPos| #[trigger] items.contains(p) ==> !sent.contains(p),
    ensures
        send_in_turn(sent, items).1 == items,
    decreases items.len(),
{
    if items.len() > 0 {
        let prev = items.drop_last();
        lemma_drop_last_fresh(items);
        lemma_send_in_turn_all(sent, prev);
        lemma_send_in_turn_fresh(sent, prev);
        let c = items.last();
        assert(items.contains(c)) by {
            assert(items[items.len() - 1] == c);
        }
        assert(!prev.to_set().contains(c));
        assert(prev.push(c) =~= items);
    }
}

/// Taking the first `k` chunks of a fresh plan sends all of them, and the
/// rest stays fresh: once each, and none of them sent.
proof fn lemma_plan_outcome(sent: Set<ChunkPos>, pl: Seq<ChunkPos>, k: int)
    requires
        pl.no_duplicates(),
        forall|p: ChunkPos| #[trigger] pl.contains(p) ==> !sent.contains(p),
        0 <= k <= pl.len(),
    ensures
        send_in_turn(sent, pl.take(k)).1 == pl.take(k),
        pl.skip(k).no_duplicates(),
        forall|p: ChunkPos| #[trigger] pl.skip(k).contains(p) ==> !send_in_turn(sent, pl.take(k)).0.contains(p),
{
    let t = pl.take(k);
    let rest = pl.skip(k);
    assert forall|i: int, j: int| 0 <= i < t.len() && 0 <= j < t.len() && i != j implies t[i] != t[j] by {
        assert(t[i] == pl[i] && t[j] == pl[j]);
    }
    assert forall|p: ChunkPos| #[trigger] t.contains(p) implies !sent.contains(p) by {
        let i = choose|i: int| 0 <= i < t.len() && t[i] == p;
        assert(pl[i] == p);
        assert(pl.contains(p));
    }
    lemma_send_in_turn_all(sent, t);
    lemma_send_in_turn_fresh(sent, t);
    assert forall|i: int, j: int| 0 <= i < rest.len() && 0 <= j < rest.len() && i != j implies rest[i] != rest[j] by {
        assert(rest[i] == pl[i + k] && rest[j] == pl[j + k]);
    }
    assert forall|p: ChunkPos| #[trigger] rest.contains(p) implies !send_in_turn(sent, t).0.contains(p) by {
        let i = choose|i: int| 0 <= i < rest.len() && rest[i] == p;
        assert(pl[i + k] == p);
        assert(pl.contains(p));
        if t.to_set().contains(p) {
            let j = choose|j: int| 0 <= j < t.len() && t[j] == p;
            assert(pl[j] == p);
        }
    }
}

/// A chunk that a filter keeps satisfies the filter.
proof fn lemma_filter_keeps(s: Seq<ChunkPos>, pred: spec_fn(ChunkPos) -> bool, p: ChunkPos)
    requires
        s.filter(pred).contains(p),
    ensures
        pred(p),
{
    let j = choose|j: int| 0 <= j < s.filter(pred).len() && s.filter(pred)[j] == p;
    s.lemma_filter_pred(pred, j);
}

proof fn lemma_within_fits(p: ChunkPos, center: ChunkPos, radius: i32)
    requires
        within_radius(p, center, radius),
        radius * radius <= i32::MAX,
    ensures
        sq_dist_fits_i32(p, center),
{
    let dx = p.0 - center.0;
    let dz = p.1 - center.1;
    assert(0 <= dx * dx && 0 <= dz * dz) by (nonlinear_arith);
    assert(-46341 <= dx <= 46341) by (nonlinear_arith)
        requires
            dx * dx <= i32::MAX,
    ;
    assert(-46341 <= dz <= 46341) by (nonlinear_arith)
        requires
            dz * dz <= i32::MAX,
    ;
}

impl ChunkTracker {
    /// Refills the queue around `center`, sorts it by distance and sends as
    /// many of its first chunks as one tick allows, skipping any already sent.
    /// Returns the chunks sent, in order.
    pub fn plan_sends(&mut self, center: ChunkPos, radius: i32) -> (r: Vec<ChunkPos>)
        requires
            old(self).plan_fits(center, radius),
        ensures
            final(self).queue() == old(self).planned_queue(center, radius).skip(
                old(self).planned_count(center, radius) as int,
            ),
            (final(self).sent(), r@) == send_in_turn(
                old(self).sent(),
                old(self).planned_queue(center, radius).take(old(self).planned_count(center, radius) as int),
            ),
            old(self).queue_fresh() ==> final(self).queue_fresh(),
            old(self).queue_fresh() ==> r@ == old(self).planned_queue(center, radius).take(r@.len() as int),
            old(self).queue_fresh() ==> r@.len() == ({
                let n = old(self).planned_queue(center, radius).len();
                if radius == 0 {
                    0
                } else if radius == 1 || radius == -1 {
                    if n < 4 {
                        n
                    } else {
                        4
                    }
                } else if n < 5 {
                    n
                } else {
                    5
                }
            }),
    {
        proof {
            assert forall|p: ChunkPos| #[trigger] self.chunk_queue@.contains(p) implies sq_dist(p, center) <= i64::MAX by {
                assert(self.queue().contains(p));
            }
        }
        let mut q = retain_within(&self.chunk_queue, center, radius);
        let ghost q1 = q@;
        enqueue_view_circle(&mut q, &self.sent_chunks, center, radius);
        proof {
            let pred = |p: ChunkPos| within_radius(p, center, radius);
            assert forall|p: ChunkPos| #[trigger] q@.contains(p) implies sq_dist_fits_i32(p, center) by {
                lemma_enqueue_unseen_from(q1, self.sent(), view_circle(center, radius), p);
                if q1.contains(p) {
                    lemma_filter_keeps(old(self).queue(), pred, p);
                } else {
                    lemma_filter_keeps(view_square(center, radius), pred, p);
                }
                lemma_within_fits(p, center, radius);
            }
        }
        let sorted = sort_queue(q, center);
        let amount: usize = if radius == 0 {
            0
        } else if radius == 1 || radius == -1 {
            4
        } else {
            5
        };
        let k = if sorted.len() < amount {
            sorted.len()
        } else {
            amount
        };
        let mut out: Vec<ChunkPos> = Vec::new();
        let mut i: usize = 0;
        assert(sorted@.take(0) =~= Seq::<ChunkPos>::empty());
        while i < k
            invariant
                i <= k,
                k <= sorted@.len(),
                (self.sent(), out@) == send_in_turn(old(self).sent(), sorted@.take(i as int)),
            decreases k - i,
        {
            let p = sorted[i];
            proof {
                assert(sorted@.take(i + 1).drop_last() =~= sorted@.take(i as int));
                assert(sorted@.take(i + 1).last() == p);
            }
            let kp = key_of(p);
            if !self.sent_chunks.contains(&kp) {
                let ghost prev = self.sent();
                self.sent_chunks.insert(kp);
                proof {
                    assert forall|x: ChunkPos| #[trigger] self.sent().contains(x) <==> prev.insert(p).contains(x) by {
                        lemma_chunk_key_injective(x, p);
                    }
                    assert(self.sent() =~= prev.insert(p));
                }
                out.push(p);
            }
            i += 1;
        }
        let mut rest: Vec<ChunkPos> = Vec::new();
        let mut j: usize = k;
        while j < sorted.len()
            invariant
                k <= j <= sorted@.len(),
                rest@ == sorted@.subrange(k as int, j as int),
            decreases sorted@.len() - j,
        {
            rest.push(sorted[j]);
            j += 1;
            assert(rest@ =~= sorted@.subrange(k as int, j as int));
        }
        self.chunk_queue = rest;
        assert(self.queue() =~= sorted@.skip(k as int));
        proof {
            if old(self).queue_fresh() {
                old(self).lemma_planned_fresh(center, radius);
                lemma_plan_outcome(old(self).sent(), sorted@, k as int);
            }
        }
        out
    }

    /// A fresh queue plans a fresh queue: every planned chunk once, none sent.
    proof fn lemma_planned_fresh(&self, center: ChunkPos, radius: i32)
        requires
            self.queue_fresh(),
        ensures
            self.planned_queue(center, radius).no_duplicates(),
            forall|p: ChunkPos| #[trigger] self.planned_queue(center, radius).contains(p) ==> !self.sent().contains(p),
    {
        let pred = |p: ChunkPos| within_radius(p, center, radius);
        lemma_filter_fresh(self.queue(), pred);
        let f = self.queue().filter(pred);
        lemma_enqueue_fresh(f, self.sent(), view_circle(center, radius));
        let refilled = self.refilled_queue(center, radius);
        lemma_sort_fresh(refilled, center);
        lemma_sort_by_distance_contents(refilled, center);
    }

    /// Forgets every sent chunk farther than `radius` from `center`.
    pub fn forget_outside(&mut self, center: ChunkPos, radius: i32)
        requires
            radius * radius <= i32::MAX,
            forall|p: ChunkPos| #[trigger] old(self).sent().contains(p) ==> sq_dist_fits_i32(p, center),
        ensures
            final(self).sent() == old(self).sent().filter(|p: ChunkPos| within_radius(p, center, radius)),
            final(self).queue() == old(self).queue(),
            old(self).queue_fresh() ==> final(self).queue_fresh(),
    {
        let keys = self.sent_keys();
        let ghost os = self.sent_chunks@;
        let ghost ks = keys@;
        let mut i: usize = 0;
        while i < keys.len()
            invariant
                i <= ks.len(),
                keys@ == ks,
                ks.to_set() == os,
                ks.no_duplicates(),
                os == old(self).sent_chunks@,
                self.chunk_queue == old(self).chunk_queue,
                radius * radius <= i32::MAX,
                forall|p: ChunkPos| #[trigger] old(self).sent().contains(p) ==> sq_dist_fits_i32(p, center),
                forall|k: u64| #[trigger] self.sent_chunks@.contains(k) <==> os.contains(k) && !(ks.take(i as int).contains(k)
                    && !within_radius(key_pos(k), center, radius)),
            decreases ks.len() - i,
        {
            let k = keys[i];
            let p = pos_of(k);
            let ghost pre = ks.take(i as int);
            let ghost post = ks.take(i + 1);
            proof {
                lemma_chunk_key(p, k);
                assert(ks.contains(k));
                assert(os.contains(k));
                assert(old(self).sent().contains(p));
                assert(post =~= pre.push(k));
            }
            if !is_within_radius(p, center, radius) {
                self.sent_chunks.remove(&k);
            }
            proof {
                assert forall|q: u64| #[trigger] self.sent_chunks@.contains(q) <==> os.contains(q) && !(post.contains(q)
                    && !within_radius(key_pos(q), center, radius)) by {
                    if post.contains(q) && q != k {
                        let t = choose|t: int| 0 <= t < i + 1 && post[t] == q;
                        assert(pre[t] == q);
                    }
                    if pre.contains(q) {
                        let t = choose|t: int| 0 <= t < i && pre[t] == q;
                        assert(post[t] == q);
                    }
                    assert(post[i as int] == k);
                }
            }
            i += 1;
        }
        proof {
            assert(ks.take(ks.len() as int) =~= ks);
            let target = old(self).sent().filter(|p: ChunkPos| within_radius(p, center, radius));
            assert forall|p: ChunkPos| #[trigger] self.sent().contains(p) <==> target.contains(p) by {
                lemma_chunk_key(p, 0);
                if os.contains(chunk_key(p)) {
                    assert(ks.to_set().contains(chunk_key(p)));
                }
            }
            assert(self.sent() =~= target);
        }
    }

    /// Whether every sent chunk's squared distance to `center` can be
    /// computed in 32-bit arithmetic.
    pub fn sent_fit_i32(&self, center: ChunkPos) -> (r: bool)
        ensures
            r == forall|p: ChunkPos| #[trigger] self.sent().contains(p) ==> sq_dist_fits_i32(p, center),
    {
        let keys = self.sent_keys();
        let ghost ks = keys@;
        let mut i: usize = 0;
        while i < keys.len()
            invariant
                i <= ks.len(),
                keys@ == ks,
                ks.to_set() == self.sent_chunks@,
                forall|j: int| 0 <= j < i ==> sq_dist_fits_i32(key_pos(#[trigger] ks[j]), center),
            decreases ks.len() - i,
        {
            let k = keys[i];
            if !sq_dist_fits_i32_check(pos_of(k), center) {
                proof {
                    lemma_chunk_key(key_pos(k), k);
                    assert(ks.contains(k));
                    assert(self.sent().contains(key_pos(k)));
                }
                return false;
            }
            i += 1;
        }
        proof {
            assert forall|p: ChunkPos| #[trigger] self.sent().contains(p) implies sq_dist_fits_i32(p, center) by {
                lemma_chunk_key(p, 0);
                assert(ks.to_set().contains(chunk_key(p)));
                let j = choose|j: int| 0 <= j < ks.len() && ks[j] == chunk_key(p);
                assert(sq_dist_fits_i32(key_pos(ks[j]), center));
            }
        }
        true
    }

    /// The keys of the sent chunks, each once.
    fn sent_keys(&self) -> (r: Vec<u64>)
        ensures
            r@.to_set() == self.sent_chunks@,
            r@.no_duplicates(),
    {
        let mut out: Vec<u64> = Vec::new();
        let ghost ks = spec_hash_keys_iter(&self.sent_chunks).remaining();
        for k in it: self.sent_chunks.iter()
            invariant
                it.seq() == ks,
                out@.len() == it.index(),
                forall|i: int| 0 <= i < out@.len() ==> out@[i] == *ks[i],
        {
            out.push(*k);
        }
        assert(out@ =~= ks.unref());
        out
    }
}

/// Drops every loaded chunk farther than `radius` from the player's chunk
/// `center`, forgets the sent chunks that far, and returns the dropped chunks
/// that the player had been sent, which it is to be told to forget.
pub fn unload_far_chunks(level: &mut Level, tracker: &mut ChunkTracker, center: ChunkPos, radius: i32) -> (r: Vec<ChunkPos>)
    requires
        old(level).wf(),
        radius * radius <= i32::MAX,
        forall|p: ChunkPos| #[trigger] old(level).chunks().contains_key(p) ==> sq_dist_fits_i32(p, center),
        forall|p: ChunkPos| #[trigger] old(tracker).sent().contains(p) ==> sq_dist_fits_i32(p, center),
    ensures
        final(level).wf(),
        final(level).chunks() == old(level).chunks().restrict(Set::new(|p: ChunkPos| within_radius(p, center, radius))),
        final(level).patches() == old(level).patches(),
        final(level).patch_counter == old(level).patch_counter,
        final(level).seed == old(level).seed,
        final(level).view_distance == old(level).view_distance,
        final(level).tick_counter == old(level).tick_counter,
        final(tracker).sent() == old(tracker).sent().filter(|p: ChunkPos| within_radius(p, center, radius)),
        final(tracker).queue() == old(tracker).queue(),
        r@.no_duplicates(),
        forall|p: ChunkPos| #[trigger] r@.contains(p) <==> (old(level).chunks().contains_key(p) && !within_radius(p, center, radius) && old(tracker).sent().contains(p)),
{
    proof {
        assert forall|p: ChunkPos| #[trigger] level.maps.chunks().contains_key(p) implies sq_dist_fits_i32(p, center) by {
            assert(old(level).chunks().contains_key(p));
        }
    }
    let removed = level.maps.remove_chunks_outside(center, radius);
    let mut to_forget: Vec<ChunkPos> = Vec::new();
    let mut i: usize = 0;
    while i < removed.len()
        invariant
            i <= removed@.len(),
            removed@.no_duplicates(),
            to_forget@.no_duplicates(),
            tracker.sent() == old(tracker).sent(),
            forall|p: ChunkPos| #[trigger] to_forget@.contains(p) <==> (removed@.take(i as int).contains(p) && old(tracker).sent().contains(p)),
        decreases removed@.len() - i,
    {
        let p = removed[i];
        let ghost before = to_forget@;
        if tracker.has_seen_chunk(p) {
            proof {
                if before.contains(p) {
                    let m = choose|m: int| 0 <= m < i && #[trigger] removed@.take(i as int)[m] == p;
                    assert(removed@[m] == removed@[i as int]);
                }
            }
            to_forget.push(p);
            proof {
                assert forall|a: int, b: int| 0 <= a < to_forget@.len() && 0 <= b < to_forget@.len() && a != b implies to_forget@[a] != to_forget@[b] by {
                    if a < before.len() && b < before.len() {
                    } else if a == before.len() {
                        assert(before.contains(before[b]));
                    } else {
                        assert(before.contains(before[a]));
                    }
                }
            }
        }
        proof {
            lemma_take_push_contains(removed@, i as int);
            lemma_push_contains(before, p);
            assert forall|x: ChunkPos| #[trigger] to_forget@.contains(x) <==> (removed@.take(i + 1).contains(x) && old(tracker).sent().contains(x)) by {
                if removed@.take(i + 1).contains(x) {
                    let m = choose|m: int| 0 <= m < i + 1 && #[trigger] removed@.take(i + 1)[m] == x;
                    if m < i {
                        assert(removed@.take(i as int)[m] == x);
                    }
                }
                if removed@.take(i as int).contains(x) {
                    let m = choose|m: int| 0 <= m < i && #[trigger] removed@.take(i as int)[m] == x;
                    assert(removed@.take(i + 1)[m] == x);
                }
                if to_forget@.contains(x) && !before.contains(x) {
                    assert(removed@.take(i + 1)[i as int] == p);
                }
                if before.contains(x) {
                    let m = choose|m: int| 0 <= m < before.len() && #[trigger] before[m] == x;
                    assert(to_forget@[m] == x);
                }
            }
        }
        i += 1;
    }
    assert(removed@.take(removed@.len() as int) =~= removed@);
    tracker.forget_outside(center, radius);
    to_forget
}

} // verus!
