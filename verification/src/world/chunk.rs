//! A chunk column: 24 sections of 16x16x16 blocks, each block a 4-bit palette
//! slot packed sixteen to a 64-bit word.
use std::hash::{DefaultHasher, Hasher};
use vstd::prelude::*;

use crate::codecs::base::MCEncode;
use crate::proto::bytes_buf::{be_bytes, lemma_be_bytes_len};
use crate::proto::error::PacketError;
use crate::proto::packet_bytes::{array_encode, encode_all, PacketBytes};
use crate::proto::varint::{lemma_varint_bytes_len, varint_bytes, varint_encode, EncodedVarInt};
use crate::world::palette::{kind_at_index, palette_ids, PaletteBlockKind};

verus! {

/// Bits per block in a section.
pub const BITS_PER_ENTRY: u32 = 4;

/// Blocks per section.
pub const NUM_ENTRIES: u32 = 4096;

/// Blocks per 64-bit word.
pub const ENTRIES_PER_LONG: u32 = 16;

/// The mask of one block's bits.
pub const MASK: u64 = 15;

/// Words per section.
pub const NUM_LONGS: usize = 256;

/// Sections per chunk, from y = -64 up to y = 319.
pub const NUM_SECTIONS: usize = 24;

/// The palette slot at `i` of a section stored in `data`.
pub open spec fn slot_in_words(data: Seq<u64>, i: int) -> u64 {
    (data[i / 16] >> ((i % 16) * 4) as u64) & 15
}

/// One 16x16x16 section of blocks, each a palette slot.
#[derive(Clone)]
pub struct Section {
    data: [u64; 256],
}

proof fn lemma_nibble_update(w: u64, v: u64, k: u64, j: u64)
    requires
        k < 16,
        j < 16,
    ensures
        ((((w & !(15u64 << (k * 4))) | ((v & 15) << (k * 4))) >> (j * 4)) & 15) == if j == k {
            v & 15
        } else {
            (w >> (j * 4)) & 15
        },
{
    assert(((((w & !(15u64 << (k * 4))) | ((v & 15) << (k * 4))) >> (j * 4)) & 15) == if j == k {
        v & 15
    } else {
        (w >> (j * 4)) & 15
    }) by (bit_vector)
        requires
            k < 16,
            j < 16,
    ;
}

proof fn lemma_digits(a: u64, c: u64, d: u64, a2: u64, c2: u64, d2: u64)
    requires
        a < 16,
        c < 16,
        d < 16,
        a2 < 16,
        c2 < 16,
        d2 < 16,
        a + c * 16 + d * 256 == a2 + c2 * 16 + d2 * 256,
    ensures
        a == a2,
        c == c2,
        d == d2,
{
    assert(a == a2 && c == c2 && d == d2) by (bit_vector)
        requires
            a < 16,
            c < 16,
            d < 16,
            a2 < 16,
            c2 < 16,
            d2 < 16,
            a + c * 16 + d * 256 == a2 + c2 * 16 + d2 * 256,
    ;
}

proof fn lemma_nibble_small(w: u64, s: u64)
    ensures
        (w >> s) & 15 < 16,
{
    assert((w >> s) & 15 < 16) by (bit_vector);
}

impl Section {
    /// The section's words.
    pub closed spec fn words(&self) -> Seq<u64> {
        self.data@
    }

    /// The palette slot of block `i`, for `i` below 4096.
    pub closed spec fn slot(&self, i: int) -> u64 {
        slot_in_words(self.data@, i)
    }

    /// Every block's slot is below 16: a slot is four bits wide.
    pub proof fn lemma_slot_small(&self, i: int)
        requires
            0 <= i < NUM_ENTRIES,
        ensures
            self.slot(i) < 16,
    {
        lemma_nibble_small(self.data@[i / 16], ((i % 16) * 4) as u64);
    }

    /// An empty section: every slot is 0, the slot of air.
    pub fn new() -> (r: Self)
        ensures
            forall|i: int| 0 <= i < NUM_ENTRIES ==> #[trigger] r.slot(i) == 0,
    {
        let r = Self { data: [0u64; 256] };
        assert forall|i: int| 0 <= i < NUM_ENTRIES implies #[trigger] r.slot(i) == 0 by {
            let s = ((i % 16) * 4) as u64;
            assert(r.data@[i / 16] == 0);
            assert((0u64 >> s) & 15 == 0) by (bit_vector);
        }
        r
    }

    pub fn entries_per_long() -> (r: u32)
        ensures
            r == 64u32 / BITS_PER_ENTRY,
    {
        64 / BITS_PER_ENTRY
    }

    pub fn mask() -> (r: u64)
        ensures
            r == MASK,
    {
        assert((1u64 << 4u64) - 1 == 15) by (bit_vector);
        (1u64 << BITS_PER_ENTRY) - 1
    }

    /// The index of the block at (x, y, z) within a section.
    pub open spec fn spec_entry_index(x: int, y: int, z: int) -> int {
        x + z * 16 + y * 256
    }

    pub fn entry_index(x: u32, y: u32, z: u32) -> (r: u32)
        requires
            x + z * 16 + y * 256 <= u32::MAX,
        ensures
            r == Self::spec_entry_index(x as int, y as int, z as int),
    {
        x + z * 16 + y * 256
    }

    pub fn get_at_index(&self, i: u32) -> (r: u64)
        requires
            i < NUM_ENTRIES,
        ensures
            r == self.slot(i as int),
            r < 16,
    {
        proof {
            self.lemma_slot_small(i as int);
        }
        let epl = ENTRIES_PER_LONG;
        let long_index = (i / epl) as usize;
        let bit_index = (i % epl) * BITS_PER_ENTRY;
        (self.data[long_index] >> bit_index) & MASK
    }

    /// Sets block `i` to the low four bits of `value`.
    pub fn set_at_index(&mut self, i: u32, value: u64)
        requires
            i < NUM_ENTRIES,
        ensures
            final(self).slot(i as int) == value & 15,
            forall|j: int|
                0 <= j < NUM_ENTRIES && j != i ==> #[trigger] final(self).slot(j) == old(self).slot(j),
    {
        let epl = ENTRIES_PER_LONG;
        let long_index = (i / epl) as usize;
        let bit_index = (i % epl) * BITS_PER_ENTRY;
        let ghost w = self.data@[long_index as int];
        let m = MASK;
        let cleared = self.data[long_index] & !(m << bit_index);
        let updated = cleared | ((value & m) << bit_index);
        self.data[long_index] = updated;
        proof {
            let k = (i % 16) as u64;
            assert forall|j: int| 0 <= j < NUM_ENTRIES implies #[trigger] self.slot(j) == if j == i {
                value & 15
            } else {
                old(self).slot(j)
            } by {
                if j / 16 == long_index {
                    lemma_nibble_update(w, value, k, (j % 16) as u64);
                }
            }
        }
    }

    /// The slot of the block at (x, y, z).
    pub fn get_block(&self, x: u32, y: u32, z: u32) -> (r: u64)
        requires
            Self::spec_entry_index(x as int, y as int, z as int) < NUM_ENTRIES,
        ensures
            r == self.slot(Self::spec_entry_index(x as int, y as int, z as int)),
            r < 16,
    {
        self.get_at_index(Self::entry_index(x, y, z))
    }

    /// Sets the block at (x, y, z) to the low four bits of `value`.
    pub fn set_block(&mut self, x: u32, y: u32, z: u32, value: u64)
        requires
            Self::spec_entry_index(x as int, y as int, z as int) < NUM_ENTRIES,
        ensures
            final(self).slot(Self::spec_entry_index(x as int, y as int, z as int)) == value & 15,
            forall|j: int|
                0 <= j < NUM_ENTRIES && j != Self::spec_entry_index(x as int, y as int, z as int)
                    ==> #[trigger] final(self).slot(j) == old(self).slot(j),
    {
        self.set_at_index(Self::entry_index(x, y, z), value);
    }
}

/// The seed that chunk generation draws from: a hash of the world seed and
/// the chunk coordinates.
pub uninterp spec fn chunk_seed(world_seed: u64, cx: i32, cz: i32) -> u64;

/// Hashes the world seed and the chunk coordinates with `DefaultHasher::new()`,
/// whose keys are fixed, so the seed depends on the three values alone.
#[verifier::external_body]
pub fn determine_chunk_seed(world_seed: u64, cx: i32, cz: i32) -> (r: u64)
    ensures
        r == chunk_seed(world_seed, cx, cz),
{
    let mut h = DefaultHasher::new();
    h.write_u64(world_seed);
    h.write_i32(cx);
    h.write_i32(cz);
    h.finish()
}

/// Whether chunk-local coordinates name a block of a chunk.
pub open spec fn in_chunk(lx: int, y: int, lz: int) -> bool {
    &&& 0 <= lx < 16
    &&& -64 <= y < 320
    &&& 0 <= lz < 16
}

/// A column of 24 sections; a section that was never written to is absent and
/// holds only air.
pub struct Chunk {
    sections: Vec<Option<Section>>,
    x: i32,
    z: i32,
}

impl Chunk {
    /// The chunk has its 24 section slots.
    pub closed spec fn wf(&self) -> bool {
        self.sections.len() == NUM_SECTIONS
    }

    /// The words of section `sy`, if it was ever written to.
    pub closed spec fn section_words(&self, sy: int) -> Option<Seq<u64>> {
        match self.sections[sy] {
            None => None,
            Some(sec) => Some(sec.words()),
        }
    }

    /// The chunk's coordinates, in chunks.
    pub closed spec fn coords(&self) -> (i32, i32) {
        (self.x, self.z)
    }

    /// The kind of the block at chunk-local (lx, y, lz).
    pub closed spec fn block(&self, lx: int, y: int, lz: int) -> PaletteBlockKind {
        let cy = y + 64;
        match self.sections[cy / 16] {
            None => PaletteBlockKind::Air,
            Some(sec) => kind_at_index(sec.slot(lx + lz * 16 + (cy % 16) * 256)),
        }
    }

    /// A chunk of air at chunk coordinates (x, z).
    pub fn new(x: i32, z: i32) -> (r: Self)
        ensures
            r.wf(),
            r.coords() == (x, z),
            forall|lx: int, y: int, lz: int|
                in_chunk(lx, y, lz) ==> #[trigger] r.block(lx, y, lz) == PaletteBlockKind::Air,
    {
        let mut sections: Vec<Option<Section>> = Vec::new();
        let mut i: usize = 0;
        while i < NUM_SECTIONS
            invariant
                i <= NUM_SECTIONS,
                sections.len() == i,
                forall|j: int| 0 <= j < i ==> #[trigger] sections@[j] is None,
            decreases NUM_SECTIONS - i,
        {
            sections.push(None);
            i += 1;
        }
        let r = Self { sections, x, z };
        assert forall|lx: int, y: int, lz: int| in_chunk(lx, y, lz) implies #[trigger] r.block(
            lx,
            y,
            lz,
        ) == PaletteBlockKind::Air by {
            assert(r.sections@[(y + 64) / 16] is None);
        }
        r
    }

    /// How far below y = 0 the chunk reaches.
    pub fn get_height_difference() -> (r: i32)
        ensures
            r == 64,
    {
        64
    }

    /// Sets the block at chunk-local (lx, y, lz); every other block stays.
    pub fn set_block_local(&mut self, lx: u32, y: i32, lz: u32, value: PaletteBlockKind)
        requires
            old(self).wf(),
            in_chunk(lx as int, y as int, lz as int),
        ensures
            final(self).wf(),
            final(self).coords() == old(self).coords(),
            final(self).block(lx as int, y as int, lz as int) == value,
            forall|a: int, b: int, c: int|
                in_chunk(a, b, c) && (a, b, c) != (lx as int, y as int, lz as int) ==> #[trigger] final(self).block(a, b, c) == old(self).block(a, b, c),
    {
        let cy = y + Self::get_height_difference();
        let sy = (cy / 16) as usize;
        let ly = (cy & 15) as u32;
        assert(cy & 15 == cy % 16) by (bit_vector)
            requires
                0 <= cy,
        ;
        let mut slot: Option<Section> = None;
        std::mem::swap(&mut self.sections[sy], &mut slot);
        let mut sec = match slot {
            Some(sec) => sec,
            None => Section::new(),
        };
        let ghost before = sec;
        let idx = value.as_palette_index();
        sec.set_block(lx, ly, lz, idx);
        self.sections.set(sy, Some(sec));
        proof {
            crate::world::palette::lemma_palette_index_roundtrip(value);
            assert(idx & 15 == idx) by (bit_vector)
                requires
                    idx < 16,
            ;
            assert forall|a: int, b: int, c: int|
                in_chunk(a, b, c) && (a, b, c) != (lx as int, y as int, lz as int) implies #[trigger] self.block(
                a,
                b,
                c,
            ) == old(self).block(a, b, c) by {
                let cb = b + 64;
                if cb / 16 == sy {
                    let j = a + c * 16 + (cb % 16) * 256;
                    if j == lx + lz * 16 + ly * 256 {
                        lemma_digits(a as u64, c as u64, (cb % 16) as u64, lx as u64, lz as u64, ly as u64);
                        assert(cb == 16 * (cb / 16) + cb % 16);
                        assert(cy == 16 * (cy / 16) + cy % 16);
                    }
                    assert(0 <= j < NUM_ENTRIES) by (nonlinear_arith)
                        requires
                            0 <= a < 16,
                            0 <= c < 16,
                            0 <= cb,
                            j == a + c * 16 + (cb % 16) * 256,
                    ;
                }
            }
        }
    }

    /// The kind of the block at chunk-local (lx, y, lz).
    pub fn get_block_local(&self, lx: u32, y: i32, lz: u32) -> (r: PaletteBlockKind)
        requires
            self.wf(),
            in_chunk(lx as int, y as int, lz as int),
        ensures
            r == self.block(lx as int, y as int, lz as int),
    {
        let cy = y + Self::get_height_difference();
        let sy = (cy / 16) as usize;
        let ly = (cy & 15) as u32;
        assert(cy & 15 == cy % 16) by (bit_vector)
            requires
                0 <= cy,
        ;
        match &self.sections[sy] {
            None => PaletteBlockKind::Air,
            Some(sec) => {
                let slot = sec.get_block(lx, ly, lz);
                proof {
                    let i = lx + lz * 16 + ly * 256;
                    lemma_nibble_small(sec.data@[i / 16], ((i % 16) * 4) as u64);
                }
                PaletteBlockKind::from_palette_index(slot)
            },
        }
    }
}

/// Words written big-endian, one after another.
pub open spec fn words_bytes(w: Seq<u64>) -> Seq<u8>
    decreases w.len(),
{
    if w.len() == 0 {
        Seq::empty()
    } else {
        words_bytes(w.drop_last()) + be_bytes(w.last() as int, 8)
    }
}

/// The block data of one section in a chunk packet: a block count, the bits
/// per entry, the palette, the packed words (zeros for an absent section),
/// then a biome palette of one entry.
pub open spec fn section_bytes(words: Option<Seq<u64>>) -> Seq<u8> {
    be_bytes(4096, 2) + be_bytes(BITS_PER_ENTRY as int, 1) + array_encode::<EncodedVarInt>(
        palette_ids(),
    ).1 + match words {
        None => Seq::new((NUM_LONGS * 8) as nat, |i: int| 0u8),
        Some(w) => words_bytes(w),
    } + be_bytes(0, 1) + varint_bytes(40)
}

/// The block data of the first `n` sections.
pub open spec fn sections_bytes(c: Chunk, n: nat) -> Seq<u8>
    decreases n,
{
    if n == 0 {
        Seq::empty()
    } else {
        sections_bytes(c, (n - 1) as nat) + section_bytes(c.section_words(n - 1))
    }
}

/// The light data of a chunk packet: full sky light in 26 sections, no block
/// light.
pub open spec fn light_bytes() -> Seq<u8> {
    varint_bytes(1) + be_bytes(0x3FF_FFFF, 8) + varint_bytes(0) + varint_bytes(0) + varint_bytes(0)
        + varint_bytes(26) + sky_light_bytes(26) + varint_bytes(0)
}

/// `n` sky light arrays of 2048 bytes of 0xFF, each with its length in front.
pub open spec fn sky_light_bytes(n: nat) -> Seq<u8>
    decreases n,
{
    if n == 0 {
        Seq::empty()
    } else {
        sky_light_bytes((n - 1) as nat) + varint_bytes(2048) + Seq::new(2048, |i: int| 0xFFu8)
    }
}

/// The VarInt 2048 is the two bytes 0x80 0x10.
proof fn lemma_varint_2048()
    ensures
        varint_bytes(2048) == seq![0x80u8, 0x10u8],
        varint_bytes(26) == seq![26u8],
        varint_bytes(0) == seq![0u8],
{
    assert(varint_encode(16) == seq![16u8]);
    assert(varint_encode(2048) =~= seq![0x80u8] + varint_encode(16));
    assert(varint_bytes(2048) =~= seq![0x80u8, 0x10u8]);
}

/// `n` sky light arrays take 2050 bytes each: the length 2048 as the VarInt
/// 0x80 0x10, then 2048 bytes of full light, 0xFF.
proof fn lemma_sky_light_layout(n: nat)
    ensures
        sky_light_bytes(n).len() == 2050 * n,
        forall|k: int|
            0 <= k < 2050 * n ==> #[trigger] sky_light_bytes(n)[k] == if k % 2050 == 0 {
                0x80u8
            } else if k % 2050 == 1 {
                0x10u8
            } else {
                0xFFu8
            },
    decreases n,
{
    lemma_varint_2048();
    if n > 0 {
        let m = (n - 1) as nat;
        lemma_sky_light_layout(m);
        let prev = sky_light_bytes(m);
        let s = sky_light_bytes(n);
        assert(s == prev + seq![0x80u8, 0x10u8] + Seq::new(2048, |i: int| 0xFFu8));
        assert forall|k: int| 0 <= k < 2050 * n implies #[trigger] s[k] == if k % 2050 == 0 {
            0x80u8
        } else if k % 2050 == 1 {
            0x10u8
        } else {
            0xFFu8
        } by {
            if k < 2050 * m {
                assert(s[k] == prev[k]);
            } else {
                let d = k - 2050 * m;
                assert(k % 2050 == d) by (nonlinear_arith)
                    requires
                        k == 2050 * m + d,
                        0 <= d < 2050,
                ;
            }
        }
    }
}

/// The end of a chunk packet body: the count 26 of the sky light arrays,
/// the 26 arrays of 2048 bytes of full light, each behind its length 0x80
/// 0x10, and no block light.
pub proof fn lemma_chunk_packet_full_sky_light(c: Chunk)
    ensures
        ({
            let b = chunk_packet_bytes(c);
            let l = b.len() as int;
            let sky = b.subrange(l - 1 - 53300, l - 1);
            &&& l >= 53302
            &&& b[l - 1] == 0
            &&& b[l - 53302] == 26
            &&& forall|k: int|
                0 <= k < 53300 ==> #[trigger] sky[k] == if k % 2050 == 0 {
                    0x80u8
                } else if k % 2050 == 1 {
                    0x10u8
                } else {
                    0xFFu8
                }
        }),
{
    lemma_varint_2048();
    lemma_sky_light_layout(26);
    let data = sections_bytes(c, NUM_SECTIONS as nat);
    let head = be_bytes(c.coords().0 as u32 as int, 4) + be_bytes(c.coords().1 as u32 as int, 4) + varint_bytes(0)
        + varint_bytes(data.len() as i32) + data + varint_bytes(0) + varint_bytes(1) + be_bytes(0x3FF_FFFF, 8)
        + varint_bytes(0) + varint_bytes(0) + varint_bytes(0);
    let sky = sky_light_bytes(26);
    let b = chunk_packet_bytes(c);
    assert(b =~= head + seq![26u8] + sky + seq![0u8]);
    let l = b.len() as int;
    assert(b.subrange(l - 1 - 53300, l - 1) =~= sky);
}

/// The body of the packet that sends a chunk with its light.
pub open spec fn chunk_packet_bytes(c: Chunk) -> Seq<u8> {
    let data = sections_bytes(c, NUM_SECTIONS as nat);
    be_bytes(c.coords().0 as u32 as int, 4) + be_bytes(c.coords().1 as u32 as int, 4) + varint_bytes(
        0,
    ) + varint_bytes(data.len() as i32) + data + varint_bytes(0) + light_bytes()
}

proof fn lemma_palette_array_len()
    ensures
        array_encode::<EncodedVarInt>(palette_ids()).0 is Ok,
        array_encode::<EncodedVarInt>(palette_ids()).1.len() <= 81,
{
    lemma_encode_varints_len(palette_ids());
    lemma_varint_bytes_len(16);
}

proof fn lemma_encode_varints_len(vs: Seq<i32>)
    ensures
        encode_all::<EncodedVarInt>(vs).0 is Ok,
        encode_all::<EncodedVarInt>(vs).1.len() <= 5 * vs.len(),
    decreases vs.len(),
{
    if vs.len() > 0 {
        lemma_encode_varints_len(vs.drop_last());
        lemma_varint_bytes_len(vs.last());
    }
}

proof fn lemma_words_bytes_len(w: Seq<u64>)
    ensures
        words_bytes(w).len() == 8 * w.len(),
    decreases w.len(),
{
    if w.len() > 0 {
        lemma_words_bytes_len(w.drop_last());
        lemma_be_bytes_len(w.last() as int, 8);
    }
}

proof fn lemma_section_bytes_len(words: Option<Seq<u64>>)
    requires
        words matches Some(w) ==> w.len() == NUM_LONGS,
    ensures
        section_bytes(words).len() <= 2200,
{
    lemma_palette_array_len();
    lemma_be_bytes_len(4096, 2);
    lemma_be_bytes_len(BITS_PER_ENTRY as int, 1);
    lemma_be_bytes_len(0, 1);
    lemma_varint_bytes_len(40);
    if let Some(w) = words {
        lemma_words_bytes_len(w);
    }
}

impl Chunk {
    /// The body of the packet that sends this chunk and its light.
    pub fn encode(&self) -> (r: Result<PacketBytes, PacketError>)
        requires
            self.wf(),
        ensures
            r matches Ok(b) && b@ == chunk_packet_bytes(*self),
            r matches Ok(b) && ({
                let l = b@.len() as int;
                let sky = b@.subrange(l - 1 - 53300, l - 1);
                &&& l >= 53302
                &&& b@[l - 1] == 0
                &&& b@[l - 53302] == 26
                &&& forall|k: int|
                    0 <= k < 53300 ==> #[trigger] sky[k] == if k % 2050 == 0 {
                        0x80u8
                    } else if k % 2050 == 1 {
                        0x10u8
                    } else {
                        0xFFu8
                    }
            }),
    {
        let mut chkbody = PacketBytes::new();
        proof {
            lemma_be_bytes_len(self.x as u32 as int, 4);
            lemma_be_bytes_len(self.z as u32 as int, 4);
            lemma_varint_bytes_len(0);
        }
        chkbody.put_i32(self.x)?;
        chkbody.put_i32(self.z)?;
        chkbody.put_var_int(0)?;
        let data_bytes = self.encode_sections();
        proof {
            lemma_varint_bytes_len(data_bytes@.len() as i32);
        }
        chkbody.put_var_int(data_bytes.len() as i32)?;
        chkbody.put_packet_bytes(data_bytes)?;
        chkbody.put_var_int(0)?;
        let ghost head = chkbody@;
        proof {
            lemma_varint_bytes_len(1);
            lemma_varint_bytes_len(26);
            lemma_varint_bytes_len(2048);
            lemma_be_bytes_len(0x3FF_FFFF, 8);
        }
        chkbody.put_var_int(1)?;
        chkbody.put_u64(0b11_1111_1111_1111_1111_1111_1111)?;
        chkbody.put_var_int(0)?;
        chkbody.put_var_int(0)?;
        chkbody.put_var_int(0)?;
        chkbody.put_var_int(26)?;
        let light = [0xFFu8; 2048];
        let ghost before_sky = chkbody@;
        let mut i: usize = 0;
        while i < 26
            invariant
                i <= 26,
                chkbody@ == before_sky + sky_light_bytes(i as nat),
                before_sky.len() < 60000,
                light@ == Seq::new(2048, |j: int| 0xFFu8),
                varint_bytes(2048).len() <= 5,
                chkbody@.len() <= before_sky.len() + i * 2053,
            decreases 26 - i,
        {
            chkbody.put_var_int(2048)?;
            chkbody.extend_from_slice(&light);
            i += 1;
        }
        chkbody.put_var_int(0)?;
        assert(chkbody@ =~= chunk_packet_bytes(*self));
        proof {
            lemma_chunk_packet_full_sky_light(*self);
        }
        Ok(chkbody)
    }

    /// The block data of all the sections, one after another.
    fn encode_sections(&self) -> (r: PacketBytes)
        requires
            self.wf(),
        ensures
            r@ == sections_bytes(*self, NUM_SECTIONS as nat),
            r@.len() <= 24 * 2200,
    {
        let mut data_bytes = PacketBytes::new();
        let zeroes: Vec<u8> = vec![0; NUM_LONGS * 8];
        let mut sy: usize = 0;
        while sy < NUM_SECTIONS
            invariant
                sy <= NUM_SECTIONS,
                self.wf(),
                zeroes@ == Seq::new((NUM_LONGS * 8) as nat, |i: int| 0u8),
                data_bytes@ == sections_bytes(*self, sy as nat),
                data_bytes@.len() <= sy * 2200,
            decreases NUM_SECTIONS - sy,
        {
            let ghost before = data_bytes@;
            proof {
                lemma_palette_array_len();
                lemma_section_bytes_len(self.section_words(sy as int));
                lemma_be_bytes_len(4096, 2);
                lemma_be_bytes_len(BITS_PER_ENTRY as int, 1);
            }
            let _ = data_bytes.put_u16(4096);
            let _ = data_bytes.put_u8(BITS_PER_ENTRY as u8);
            let pal = PaletteBlockKind::entries();
            assert(pal@.map_values(|x: EncodedVarInt| x@) =~= palette_ids());
            let _ = data_bytes.put_array(pal);
            assert(data_bytes@.len() <= sy * 2200 + 84);
            match &self.sections[sy] {
                Some(section) => {
                    let ghost start = data_bytes@;
                    let mut k: usize = 0;
                    while k < NUM_LONGS
                        invariant
                            k <= NUM_LONGS,
                            data_bytes@ == start + words_bytes(section.words().take(k as int)),
                            start.len() <= 24 * 2200,
                            section.words().len() == NUM_LONGS,
                        decreases NUM_LONGS - k,
                    {
                        proof {
                            lemma_words_bytes_len(section.words().take(k as int));
                            assert(section.words().take(k + 1).drop_last() =~= section.words().take(k as int));
                        }
                        let _ = data_bytes.put_u64(section.data[k]);
                        k += 1;
                    }
                    assert(section.words().take(NUM_LONGS as int) =~= section.words());
                },
                None => {
                    data_bytes.extend_from_slice(zeroes.as_slice());
                },
            }
            let _ = data_bytes.put_u8(0);
            let _ = data_bytes.put_var_int(40);
            sy += 1;
            assert(data_bytes@ =~= sections_bytes(*self, sy as nat));
        }
        data_bytes
    }
}

} // verus!
