//! The kinds of block a chunk can hold, with their protocol ids and their
//! slots in the chunk palette.
use vstd::prelude::*;

use crate::proto::varint::EncodedVarInt;

verus! {

#[derive(PartialEq, Eq, Structural, PartialOrd, Ord, Debug, Clone, Copy)]
pub enum PaletteBlockKind {
    Air,
    Stone,
    Bedrock,
    OakLog,
    OakPlanks,
    Deepslate,
    Andesite,
    Diorite,
    Dirt,
    Grass,
    Granite,
    Cobblestone,
    GoldBlock,
    CobblestoneWall,
    CobblestoneWallXF,
    CobblestoneWallZF,
}

/// The number of kinds, which is also the size of the palette.
pub const PALETTE_LEN: u64 = 16;

/// The block state id that the protocol uses for each kind.
pub open spec fn minecraft_id(k: PaletteBlockKind) -> u64 {
    match k {
        PaletteBlockKind::Air => 0,
        PaletteBlockKind::Stone => 1,
        PaletteBlockKind::Bedrock => 85,
        PaletteBlockKind::OakLog => 137,
        PaletteBlockKind::OakPlanks => 15,
        PaletteBlockKind::Deepslate => 27722,
        PaletteBlockKind::Andesite => 6,
        PaletteBlockKind::Diorite => 4,
        PaletteBlockKind::Dirt => 10,
        PaletteBlockKind::Grass => 9,
        PaletteBlockKind::Granite => 2,
        PaletteBlockKind::Cobblestone => 14,
        PaletteBlockKind::GoldBlock => 2137,
        PaletteBlockKind::CobblestoneWall => 9783,
        PaletteBlockKind::CobblestoneWallXF => 9898,
        PaletteBlockKind::CobblestoneWallZF => 9837,
    }
}

/// The slot of each kind in the palette that chunks are sent with.
pub open spec fn palette_index(k: PaletteBlockKind) -> u64 {
    match k {
        PaletteBlockKind::Air => 0,
        PaletteBlockKind::Stone => 1,
        PaletteBlockKind::Bedrock => 2,
        PaletteBlockKind::OakLog => 3,
        PaletteBlockKind::OakPlanks => 4,
        PaletteBlockKind::Deepslate => 5,
        PaletteBlockKind::Andesite => 6,
        PaletteBlockKind::Diorite => 7,
        PaletteBlockKind::Dirt => 8,
        PaletteBlockKind::Grass => 9,
        PaletteBlockKind::Granite => 10,
        PaletteBlockKind::Cobblestone => 11,
        PaletteBlockKind::GoldBlock => 12,
        PaletteBlockKind::CobblestoneWall => 13,
        PaletteBlockKind::CobblestoneWallXF => 14,
        PaletteBlockKind::CobblestoneWallZF => 15,
    }
}

/// The kind in each palette slot.
pub open spec fn kind_at_index(i: u64) -> PaletteBlockKind
    recommends
        i < PALETTE_LEN,
{
    if i == 0 {
        PaletteBlockKind::Air
    } else if i == 1 {
        PaletteBlockKind::Stone
    } else if i == 2 {
        PaletteBlockKind::Bedrock
    } else if i == 3 {
        PaletteBlockKind::OakLog
    } else if i == 4 {
        PaletteBlockKind::OakPlanks
    } else if i == 5 {
        PaletteBlockKind::Deepslate
    } else if i == 6 {
        PaletteBlockKind::Andesite
    } else if i == 7 {
        PaletteBlockKind::Diorite
    } else if i == 8 {
        PaletteBlockKind::Dirt
    } else if i == 9 {
        PaletteBlockKind::Grass
    } else if i == 10 {
        PaletteBlockKind::Granite
    } else if i == 11 {
        PaletteBlockKind::Cobblestone
    } else if i == 12 {
        PaletteBlockKind::GoldBlock
    } else if i == 13 {
        PaletteBlockKind::CobblestoneWall
    } else if i == 14 {
        PaletteBlockKind::CobblestoneWallXF
    } else {
        PaletteBlockKind::CobblestoneWallZF
    }
}

/// The palette: the protocol id of the kind in each slot, in slot order.
pub open spec fn palette_ids() -> Seq<i32> {
    seq![0, 1, 85, 137, 15, 27722, 6, 4, 10, 9, 2, 14, 2137, 9783, 9898, 9837]
}

/// The block state ids of the protocol, which a client reads block updates
/// and chunk palettes by: air 0, stone 1, granite 2, diorite 4, andesite 6,
/// grass 9, dirt 10, cobblestone 14, oak planks 15, bedrock 85, oak log 137,
/// gold block 2137, the three cobblestone walls 9783, 9898 and 9837, and
/// deepslate 27722. The palette lists, in each slot, the id of the kind
/// kept there, and slots and kinds correspond one to one.
pub proof fn lemma_block_state_ids()
    ensures
        minecraft_id(PaletteBlockKind::Air) == 0,
        minecraft_id(PaletteBlockKind::Stone) == 1,
        minecraft_id(PaletteBlockKind::Granite) == 2,
        minecraft_id(PaletteBlockKind::Diorite) == 4,
        minecraft_id(PaletteBlockKind::Andesite) == 6,
        minecraft_id(PaletteBlockKind::Grass) == 9,
        minecraft_id(PaletteBlockKind::Dirt) == 10,
        minecraft_id(PaletteBlockKind::Cobblestone) == 14,
        minecraft_id(PaletteBlockKind::OakPlanks) == 15,
        minecraft_id(PaletteBlockKind::Bedrock) == 85,
        minecraft_id(PaletteBlockKind::OakLog) == 137,
        minecraft_id(PaletteBlockKind::GoldBlock) == 2137,
        minecraft_id(PaletteBlockKind::CobblestoneWall) == 9783,
        minecraft_id(PaletteBlockKind::CobblestoneWallXF) == 9898,
        minecraft_id(PaletteBlockKind::CobblestoneWallZF) == 9837,
        minecraft_id(PaletteBlockKind::Deepslate) == 27722,
        palette_ids().len() == PALETTE_LEN,
        forall|k: PaletteBlockKind|
            palette_index(k) < PALETTE_LEN && #[trigger] palette_ids()[palette_index(k) as int] == minecraft_id(k) as i32,
        forall|k: PaletteBlockKind| #[trigger] kind_at_index(palette_index(k)) == k,
        forall|i: u64| i < PALETTE_LEN ==> #[trigger] palette_index(kind_at_index(i)) == i,
{
}

impl PaletteBlockKind {
    pub fn as_minecraft_id(&self) -> (r: u64)
        ensures
            r == minecraft_id(*self),
    {
        match self {
            Self::Air => 0,
            Self::Stone => 1,
            Self::Bedrock => 85,
            Self::OakLog => 137,
            Self::OakPlanks => 15,
            Self::Deepslate => 27722,
            Self::Andesite => 6,
            Self::Diorite => 4,
            Self::Dirt => 10,
            Self::Grass => 9,
            Self::Granite => 2,
            Self::Cobblestone => 14,
            Self::GoldBlock => 2137,
            Self::CobblestoneWall => 9783,
            Self::CobblestoneWallXF => 9898,
            Self::CobblestoneWallZF => 9837,
        }
    }

    pub fn as_palette_index(&self) -> (r: u64)
        ensures
            r == palette_index(*self),
            r < PALETTE_LEN,
    {
        match self {
            Self::Air => 0,
            Self::Stone => 1,
            Self::Bedrock => 2,
            Self::OakLog => 3,
            Self::OakPlanks => 4,
            Self::Deepslate => 5,
            Self::Andesite => 6,
            Self::Diorite => 7,
            Self::Dirt => 8,
            Self::Grass => 9,
            Self::Granite => 10,
            Self::Cobblestone => 11,
            Self::GoldBlock => 12,
            Self::CobblestoneWall => 13,
            Self::CobblestoneWallXF => 14,
            Self::CobblestoneWallZF => 15,
        }
    }

    /// The kind in palette slot `index`; there is none past the last slot.
    pub fn from_palette_index(index: u64) -> (r: Self)
        requires
            index < PALETTE_LEN,
        ensures
            r == kind_at_index(index),
    {
        match index {
            0 => Self::Air,
            1 => Self::Stone,
            2 => Self::Bedrock,
            3 => Self::OakLog,
            4 => Self::OakPlanks,
            5 => Self::Deepslate,
            6 => Self::Andesite,
            7 => Self::Diorite,
            8 => Self::Dirt,
            9 => Self::Grass,
            10 => Self::Granite,
            11 => Self::Cobblestone,
            12 => Self::GoldBlock,
            13 => Self::CobblestoneWall,
            14 => Self::CobblestoneWallXF,
            _ => Self::CobblestoneWallZF,
        }
    }

    /// The palette, as the VarInts that a chunk section sends.
    pub fn entries() -> (r: Vec<EncodedVarInt>)
        ensures
            r@.map_values(|e: EncodedVarInt| e.0) == palette_ids(),
    {
        let r = vec![EncodedVarInt(0), EncodedVarInt(1), EncodedVarInt(85), EncodedVarInt(137), EncodedVarInt(15), EncodedVarInt(27722), EncodedVarInt(6), EncodedVarInt(4), EncodedVarInt(10), EncodedVarInt(9), EncodedVarInt(2), EncodedVarInt(14), EncodedVarInt(2137), EncodedVarInt(9783), EncodedVarInt(9898), EncodedVarInt(9837)];
        assert(r@.map_values(|e: EncodedVarInt| e.0) =~= palette_ids());
        r
    }
}

/// A kind's palette slot holds that kind.
pub proof fn lemma_palette_index_roundtrip(k: PaletteBlockKind)
    ensures
        palette_index(k) < PALETTE_LEN,
        kind_at_index(palette_index(k)) == k,
{
}

/// Each slot's kind is in that slot.
pub proof fn lemma_kind_at_index_roundtrip(i: u64)
    requires
        i < PALETTE_LEN,
    ensures
        palette_index(kind_at_index(i)) == i,
{
}

/// The palette lists, in each kind's slot, that kind's protocol id.
pub proof fn lemma_palette_ids(k: PaletteBlockKind)
    ensures
        palette_ids().len() == PALETTE_LEN,
        palette_ids()[palette_index(k) as int] == minecraft_id(k),
{
}

} // verus!
