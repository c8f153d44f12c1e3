//! Play-state packets, and the enums they carry; an enum travels as the
//! number behind its variant, a byte or a VarInt.
use vstd::prelude::*;

use crate::codecs::base::{string_fits, MCCodec, MCDecode, MCEncode};
use crate::proto::bytes_buf::{
    be_bytes, be_value, lemma_be_bytes_len, lemma_be_prefix, lemma_be_roundtrip, lemma_pow256_values,
    max_buffer_len,
};
use crate::proto::error::PacketError;
use crate::proto::packet_bytes::PacketBytes;
use crate::proto::varint::{
    lemma_varint_bytes_len, lemma_varint_decode_len, lemma_varint_roundtrip, varint_bytes,
    varint_decode, EncodedVarInt, VarInt,
};
use crate::codecs::position::Position;
use crate::proto::packet_bytes::array_encode;
use crate::proto::packets::{
    bool_encode, copy_bytes, copy_strings, put_bool_field, put_raw,
    rest_decode, Packet,
};

verus! {

/// What reading a byte-sized enum gives: the variant its byte names, or an
/// error; the byte is taken either way.
pub open spec fn u8_enum_decode<E>(s: Seq<u8>, from: spec_fn(u8) -> Option<E>) -> (Result<E, PacketError>, nat) {
    if s.len() >= 1 {
        match from(be_value(s.take(1)) as u8) {
            Some(e) => (Ok(e), 1),
            None => (Err(PacketError::InvalidEnumValue), 1),
        }
    } else {
        (Err(PacketError::Eof), 0)
    }
}

/// What reading a VarInt-sized enum gives: the variant its VarInt names, or
/// an error; a whole VarInt is taken either way.
pub open spec fn varint_enum_decode<E>(s: Seq<u8>, from: spec_fn(i32) -> Option<E>) -> (Result<E, PacketError>, nat) {
    match varint_decode(s) {
        Ok((n, k)) => match from(n) {
            Some(e) => (Ok(e), k),
            None => (Err(PacketError::InvalidEnumValue), k),
        },
        Err(e) => (Err(e), 0),
    }
}

proof fn lemma_u8_roundtrip(v: u8, rest: Seq<u8>)
    ensures
        (be_bytes(v as int, 1) + rest).len() >= 1,
        (be_bytes(v as int, 1) + rest).take(1) == be_bytes(v as int, 1),
        be_value(be_bytes(v as int, 1)) as u8 == v,
        be_bytes(v as int, 1).len() == 1,
{
    lemma_pow256_values();
    lemma_be_prefix(v as int, 1, rest);
    lemma_be_bytes_len(v as int, 1);
    lemma_be_roundtrip(v as int, 1);
}

/// The protocol's game mode numbers: survival 0, creative 1, adventure 2,
/// spectator 3. Reading a number gives the mode with that number, and
/// nothing for any other number.
pub proof fn lemma_game_mode_numbers()
    ensures
        GameMode::Survival.spec_id() == 0,
        GameMode::Creative.spec_id() == 1,
        GameMode::Adventure.spec_id() == 2,
        GameMode::Spectator.spec_id() == 3,
        forall|n: i32, g: GameMode| #![trigger GameMode::from_spec_id(n), g.spec_id()] GameMode::from_spec_id(n) == Some(g) <==> g.spec_id() == n,
        forall|n: i32| #[trigger] GameMode::from_spec_id(n) is None <==> (n < 0 || n > 3),
{
    assert forall|n: i32, g: GameMode| #![trigger GameMode::from_spec_id(n), g.spec_id()] GameMode::from_spec_id(n) == Some(g) <==> g.spec_id() == n by {
        match g {
            GameMode::Survival => {},
            GameMode::Creative => {},
            GameMode::Adventure => {},
            GameMode::Spectator => {},
        }
    }
}

/// How the player plays.
#[derive(PartialEq, Eq, Structural, Debug, Clone, Copy)]
pub enum GameMode {
    Survival,
    Creative,
    Adventure,
    Spectator,
}

impl GameMode {
    /// The number that stands for the variant.
    pub open spec fn spec_id(self) -> i32 {
        match self {
            GameMode::Survival => 0,
            GameMode::Creative => 1,
            GameMode::Adventure => 2,
            GameMode::Spectator => 3,
        }
    }

    /// The variant that a number stands for, if any.
    pub open spec fn from_spec_id(n: i32) -> Option<GameMode> {
        if n == 0 {
            Some(GameMode::Survival)
        } else if n == 1 {
            Some(GameMode::Creative)
        } else if n == 2 {
            Some(GameMode::Adventure)
        } else if n == 3 {
            Some(GameMode::Spectator)
        } else {
            None
        }
    }

    pub fn id(&self) -> (r: i32)
        ensures
            r == self.spec_id(),
    {
        match self {
            GameMode::Survival => 0,
            GameMode::Creative => 1,
            GameMode::Adventure => 2,
            GameMode::Spectator => 3,
        }
    }

    pub fn from_id(n: i32) -> (r: Option<Self>)
        ensures
            r == Self::from_spec_id(n),
    {
        if n == 0 {
            Some(GameMode::Survival)
        } else if n == 1 {
            Some(GameMode::Creative)
        } else if n == 2 {
            Some(GameMode::Adventure)
        } else if n == 3 {
            Some(GameMode::Spectator)
        } else {
            None
        }
    }
}

impl View for GameMode {
    type V = GameMode;

    open spec fn view(&self) -> GameMode {
        *self
    }
}

impl MCEncode for GameMode {
    open spec fn spec_encode(v: GameMode) -> (Result<(), PacketError>, Seq<u8>) {
        (Ok(()), varint_bytes(v.spec_id()))
    }

    fn encode(&self, dst: &mut PacketBytes) -> (r: Result<(), PacketError>) {
        proof {
            lemma_varint_bytes_len(self.spec_id());
        }
        dst.put_var_int(self.id())?;
        Ok(())
    }
}

impl MCDecode for GameMode {
    open spec fn spec_decode(s: Seq<u8>) -> (Result<GameMode, PacketError>, nat) {
        varint_enum_decode(s, |n: i32| GameMode::from_spec_id(n))
    }

    proof fn lemma_decode_len(s: Seq<u8>) {
        lemma_varint_decode_len(s);
    }

    fn decode(src: &mut PacketBytes) -> (r: Result<Self, PacketError>) {
        let n = src.get_var_int()?;
        match Self::from_id(n) {
            Some(v) => Ok(v),
            None => Err(PacketError::InvalidEnumValue),
        }
    }
}

impl MCCodec for GameMode {
    open spec fn spec_roundtrips(v: GameMode) -> bool {
        true
    }

    proof fn lemma_roundtrip(v: GameMode, rest: Seq<u8>) {
        lemma_varint_roundtrip(v.spec_id(), rest);
    }
}

impl GameMode {
    /// Whether the game mode lets the player fly: creative and spectator do.
    pub open spec fn spec_can_fly(self) -> bool {
        self == GameMode::Creative || self == GameMode::Spectator
    }

    pub fn can_fly(&self) -> (r: bool)
        ensures
            r == self.spec_can_fly(),
    {
        match self {
            GameMode::Creative | GameMode::Spectator => true,
            _ => false,
        }
    }
}

/// A game mode, sent as a byte.
#[derive(PartialEq, Eq, Structural, Debug, Clone, Copy)]
pub enum ByteGameMode {
    Survival,
    Creative,
    Adventure,
    Spectator,
}

impl ByteGameMode {
    /// The number that stands for the variant.
    pub open spec fn spec_id(self) -> u8 {
        match self {
            ByteGameMode::Survival => 0,
            ByteGameMode::Creative => 1,
            ByteGameMode::Adventure => 2,
            ByteGameMode::Spectator => 3,
        }
    }

    /// The variant that a number stands for, if any.
    pub open spec fn from_spec_id(n: u8) -> Option<ByteGameMode> {
        if n == 0 {
            Some(ByteGameMode::Survival)
        } else if n == 1 {
            Some(ByteGameMode::Creative)
        } else if n == 2 {
            Some(ByteGameMode::Adventure)
        } else if n == 3 {
            Some(ByteGameMode::Spectator)
        } else {
            None
        }
    }

    pub fn id(&self) -> (r: u8)
        ensures
            r == self.spec_id(),
    {
        match self {
            ByteGameMode::Survival => 0,
            ByteGameMode::Creative => 1,
            ByteGameMode::Adventure => 2,
            ByteGameMode::Spectator => 3,
        }
    }

    pub fn from_id(n: u8) -> (r: Option<Self>)
        ensures
            r == Self::from_spec_id(n),
    {
        if n == 0 {
            Some(ByteGameMode::Survival)
        } else if n == 1 {
            Some(ByteGameMode::Creative)
        } else if n == 2 {
            Some(ByteGameMode::Adventure)
        } else if n == 3 {
            Some(ByteGameMode::Spectator)
        } else {
            None
        }
    }
}

impl View for ByteGameMode {
    type V = ByteGameMode;

    open spec fn view(&self) -> ByteGameMode {
        *self
    }
}

impl MCEncode for ByteGameMode {
    open spec fn spec_encode(v: ByteGameMode) -> (Result<(), PacketError>, Seq<u8>) {
        (Ok(()), be_bytes(v.spec_id() as int, 1))
    }

    fn encode(&self, dst: &mut PacketBytes) -> (r: Result<(), PacketError>) {
        proof {
            lemma_be_bytes_len(self.spec_id() as int, 1);
        }
        dst.put_u8(self.id())?;
        Ok(())
    }
}

impl MCDecode for ByteGameMode {
    open spec fn spec_decode(s: Seq<u8>) -> (Result<ByteGameMode, PacketError>, nat) {
        u8_enum_decode(s, |n: u8| ByteGameMode::from_spec_id(n))
    }

    proof fn lemma_decode_len(s: Seq<u8>) {
    }

    fn decode(src: &mut PacketBytes) -> (r: Result<Self, PacketError>) {
        let n = src.get_u8()?;
        match Self::from_id(n) {
            Some(v) => Ok(v),
            None => Err(PacketError::InvalidEnumValue),
        }
    }
}

impl MCCodec for ByteGameMode {
    open spec fn spec_roundtrips(v: ByteGameMode) -> bool {
        true
    }

    proof fn lemma_roundtrip(v: ByteGameMode, rest: Seq<u8>) {
        lemma_u8_roundtrip(v.spec_id(), rest);
    }
}
/// A change of game state that the server tells the client of.
#[derive(PartialEq, Eq, Structural, Debug, Clone, Copy)]
pub enum GameEvent {
    NoRespawnBlockAvailable,
    BeginRaining,
    EndRaining,
    ChangeGamemode,
    WinGame,
    DemoEvent,
    ArrowHitPlayer,
    RainLevelChange,
    ThunderLevelChange,
    PlayPufferfishStingSound,
    PlayElderGuardianAppearance,
    EnableRespawnScreen,
    LimitedCrafting,
    StartWaitingForChunks,
}

impl GameEvent {
    /// The number that stands for the variant.
    pub open spec fn spec_id(self) -> u8 {
        match self {
            GameEvent::NoRespawnBlockAvailable => 0,
            GameEvent::BeginRaining => 1,
            GameEvent::EndRaining => 2,
            GameEvent::ChangeGamemode => 3,
            GameEvent::WinGame => 4,
            GameEvent::DemoEvent => 5,
            GameEvent::ArrowHitPlayer => 6,
            GameEvent::RainLevelChange => 7,
            GameEvent::ThunderLevelChange => 8,
            GameEvent::PlayPufferfishStingSound => 9,
            GameEvent::PlayElderGuardianAppearance => 10,
            GameEvent::EnableRespawnScreen => 11,
            GameEvent::LimitedCrafting => 12,
            GameEvent::StartWaitingForChunks => 13,
        }
    }

    /// The variant that a number stands for, if any.
    pub open spec fn from_spec_id(n: u8) -> Option<GameEvent> {
        if n == 0 {
            Some(GameEvent::NoRespawnBlockAvailable)
        } else if n == 1 {
            Some(GameEvent::BeginRaining)
        } else if n == 2 {
            Some(GameEvent::EndRaining)
        } else if n == 3 {
            Some(GameEvent::ChangeGamemode)
        } else if n == 4 {
            Some(GameEvent::WinGame)
        } else if n == 5 {
            Some(GameEvent::DemoEvent)
        } else if n == 6 {
            Some(GameEvent::ArrowHitPlayer)
        } else if n == 7 {
            Some(GameEvent::RainLevelChange)
        } else if n == 8 {
            Some(GameEvent::ThunderLevelChange)
        } else if n == 9 {
            Some(GameEvent::PlayPufferfishStingSound)
        } else if n == 10 {
            Some(GameEvent::PlayElderGuardianAppearance)
        } else if n == 11 {
            Some(GameEvent::EnableRespawnScreen)
        } else if n == 12 {
            Some(GameEvent::LimitedCrafting)
        } else if n == 13 {
            Some(GameEvent::StartWaitingForChunks)
        } else {
            None
        }
    }

    pub fn id(&self) -> (r: u8)
        ensures
            r == self.spec_id(),
    {
        match self {
            GameEvent::NoRespawnBlockAvailable => 0,
            GameEvent::BeginRaining => 1,
            GameEvent::EndRaining => 2,
            GameEvent::ChangeGamemode => 3,
            GameEvent::WinGame => 4,
            GameEvent::DemoEvent => 5,
            GameEvent::ArrowHitPlayer => 6,
            GameEvent::RainLevelChange => 7,
            GameEvent::ThunderLevelChange => 8,
            GameEvent::PlayPufferfishStingSound => 9,
            GameEvent::PlayElderGuardianAppearance => 10,
            GameEvent::EnableRespawnScreen => 11,
            GameEvent::LimitedCrafting => 12,
            GameEvent::StartWaitingForChunks => 13,
        }
    }

    pub fn from_id(n: u8) -> (r: Option<Self>)
        ensures
            r == Self::from_spec_id(n),
    {
        if n == 0 {
            Some(GameEvent::NoRespawnBlockAvailable)
        } else if n == 1 {
            Some(GameEvent::BeginRaining)
        } else if n == 2 {
            Some(GameEvent::EndRaining)
        } else if n == 3 {
            Some(GameEvent::ChangeGamemode)
        } else if n == 4 {
            Some(GameEvent::WinGame)
        } else if n == 5 {
            Some(GameEvent::DemoEvent)
        } else if n == 6 {
            Some(GameEvent::ArrowHitPlayer)
        } else if n == 7 {
            Some(GameEvent::RainLevelChange)
        } else if n == 8 {
            Some(GameEvent::ThunderLevelChange)
        } else if n == 9 {
            Some(GameEvent::PlayPufferfishStingSound)
        } else if n == 10 {
            Some(GameEvent::PlayElderGuardianAppearance)
        } else if n == 11 {
            Some(GameEvent::EnableRespawnScreen)
        } else if n == 12 {
            Some(GameEvent::LimitedCrafting)
        } else if n == 13 {
            Some(GameEvent::StartWaitingForChunks)
        } else {
            None
        }
    }
}

impl View for GameEvent {
    type V = GameEvent;

    open spec fn view(&self) -> GameEvent {
        *self
    }
}

impl MCEncode for GameEvent {
    open spec fn spec_encode(v: GameEvent) -> (Result<(), PacketError>, Seq<u8>) {
        (Ok(()), be_bytes(v.spec_id() as int, 1))
    }

    fn encode(&self, dst: &mut PacketBytes) -> (r: Result<(), PacketError>) {
        proof {
            lemma_be_bytes_len(self.spec_id() as int, 1);
        }
        dst.put_u8(self.id())?;
        Ok(())
    }
}

impl MCDecode for GameEvent {
    open spec fn spec_decode(s: Seq<u8>) -> (Result<GameEvent, PacketError>, nat) {
        u8_enum_decode(s, |n: u8| GameEvent::from_spec_id(n))
    }

    proof fn lemma_decode_len(s: Seq<u8>) {
    }

    fn decode(src: &mut PacketBytes) -> (r: Result<Self, PacketError>) {
        let n = src.get_u8()?;
        match Self::from_id(n) {
            Some(v) => Ok(v),
            None => Err(PacketError::InvalidEnumValue),
        }
    }
}

impl MCCodec for GameEvent {
    open spec fn spec_roundtrips(v: GameEvent) -> bool {
        true
    }

    proof fn lemma_roundtrip(v: GameEvent, rest: Seq<u8>) {
        lemma_u8_roundtrip(v.spec_id(), rest);
    }
}
/// An entity status; only the operator levels are used.
#[derive(PartialEq, Eq, Structural, Debug, Clone, Copy)]
pub enum EntityEvent {
    SetOpPermissionLevel0,
    SetOpPermissionLevel1,
    SetOpPermissionLevel2,
    SetOpPermissionLevel3,
    SetOpPermissionLevel4,
}

impl EntityEvent {
    /// The number that stands for the variant.
    pub open spec fn spec_id(self) -> u8 {
        match self {
            EntityEvent::SetOpPermissionLevel0 => 24,
            EntityEvent::SetOpPermissionLevel1 => 25,
            EntityEvent::SetOpPermissionLevel2 => 26,
            EntityEvent::SetOpPermissionLevel3 => 27,
            EntityEvent::SetOpPermissionLevel4 => 28,
        }
    }

    /// The variant that a number stands for, if any.
    pub open spec fn from_spec_id(n: u8) -> Option<EntityEvent> {
        if n == 24 {
            Some(EntityEvent::SetOpPermissionLevel0)
        } else if n == 25 {
            Some(EntityEvent::SetOpPermissionLevel1)
        } else if n == 26 {
            Some(EntityEvent::SetOpPermissionLevel2)
        } else if n == 27 {
            Some(EntityEvent::SetOpPermissionLevel3)
        } else if n == 28 {
            Some(EntityEvent::SetOpPermissionLevel4)
        } else {
            None
        }
    }

    pub fn id(&self) -> (r: u8)
        ensures
            r == self.spec_id(),
    {
        match self {
            EntityEvent::SetOpPermissionLevel0 => 24,
            EntityEvent::SetOpPermissionLevel1 => 25,
            EntityEvent::SetOpPermissionLevel2 => 26,
            EntityEvent::SetOpPermissionLevel3 => 27,
            EntityEvent::SetOpPermissionLevel4 => 28,
        }
    }

    pub fn from_id(n: u8) -> (r: Option<Self>)
        ensures
            r == Self::from_spec_id(n),
    {
        if n == 24 {
            Some(EntityEvent::SetOpPermissionLevel0)
        } else if n == 25 {
            Some(EntityEvent::SetOpPermissionLevel1)
        } else if n == 26 {
            Some(EntityEvent::SetOpPermissionLevel2)
        } else if n == 27 {
            Some(EntityEvent::SetOpPermissionLevel3)
        } else if n == 28 {
            Some(EntityEvent::SetOpPermissionLevel4)
        } else {
            None
        }
    }
}

impl View for EntityEvent {
    type V = EntityEvent;

    open spec fn view(&self) -> EntityEvent {
        *self
    }
}

impl MCEncode for EntityEvent {
    open spec fn spec_encode(v: EntityEvent) -> (Result<(), PacketError>, Seq<u8>) {
        (Ok(()), be_bytes(v.spec_id() as int, 1))
    }

    fn encode(&self, dst: &mut PacketBytes) -> (r: Result<(), PacketError>) {
        proof {
            lemma_be_bytes_len(self.spec_id() as int, 1);
        }
        dst.put_u8(self.id())?;
        Ok(())
    }
}

impl MCDecode for EntityEvent {
    open spec fn spec_decode(s: Seq<u8>) -> (Result<EntityEvent, PacketError>, nat) {
        u8_enum_decode(s, |n: u8| EntityEvent::from_spec_id(n))
    }

    proof fn lemma_decode_len(s: Seq<u8>) {
    }

    fn decode(src: &mut PacketBytes) -> (r: Result<Self, PacketError>) {
        let n = src.get_u8()?;
        match Self::from_id(n) {
            Some(v) => Ok(v),
            None => Err(PacketError::InvalidEnumValue),
        }
    }
}

impl MCCodec for EntityEvent {
    open spec fn spec_roundtrips(v: EntityEvent) -> bool {
        true
    }

    proof fn lemma_roundtrip(v: EntityEvent, rest: Seq<u8>) {
        lemma_u8_roundtrip(v.spec_id(), rest);
    }
}
/// What a player command asks for.
#[derive(PartialEq, Eq, Structural, Debug, Clone, Copy)]
pub enum PlayerActionId {
    LeaveBed,
    StartSprinting,
    StopSprinting,
    StartJumpWithHorse,
    StopJumpWithHorse,
    OpenVehicleInventory,
    StartFlyingWithElytra,
}

impl PlayerActionId {
    /// The number that stands for the variant.
    pub open spec fn spec_id(self) -> i32 {
        match self {
            PlayerActionId::LeaveBed => 0,
            PlayerActionId::StartSprinting => 1,
            PlayerActionId::StopSprinting => 2,
            PlayerActionId::StartJumpWithHorse => 3,
            PlayerActionId::StopJumpWithHorse => 4,
            PlayerActionId::OpenVehicleInventory => 5,
            PlayerActionId::StartFlyingWithElytra => 6,
        }
    }

    /// The variant that a number stands for, if any.
    pub open spec fn from_spec_id(n: i32) -> Option<PlayerActionId> {
        if n == 0 {
            Some(PlayerActionId::LeaveBed)
        } else if n == 1 {
            Some(PlayerActionId::StartSprinting)
        } else if n == 2 {
            Some(PlayerActionId::StopSprinting)
        } else if n == 3 {
            Some(PlayerActionId::StartJumpWithHorse)
        } else if n == 4 {
            Some(PlayerActionId::StopJumpWithHorse)
        } else if n == 5 {
            Some(PlayerActionId::OpenVehicleInventory)
        } else if n == 6 {
            Some(PlayerActionId::StartFlyingWithElytra)
        } else {
            None
        }
    }

    pub fn id(&self) -> (r: i32)
        ensures
            r == self.spec_id(),
    {
        match self {
            PlayerActionId::LeaveBed => 0,
            PlayerActionId::StartSprinting => 1,
            PlayerActionId::StopSprinting => 2,
            PlayerActionId::StartJumpWithHorse => 3,
            PlayerActionId::StopJumpWithHorse => 4,
            PlayerActionId::OpenVehicleInventory => 5,
            PlayerActionId::StartFlyingWithElytra => 6,
        }
    }

    pub fn from_id(n: i32) -> (r: Option<Self>)
        ensures
            r == Self::from_spec_id(n),
    {
        if n == 0 {
            Some(PlayerActionId::LeaveBed)
        } else if n == 1 {
            Some(PlayerActionId::StartSprinting)
        } else if n == 2 {
            Some(PlayerActionId::StopSprinting)
        } else if n == 3 {
            Some(PlayerActionId::StartJumpWithHorse)
        } else if n == 4 {
            Some(PlayerActionId::StopJumpWithHorse)
        } else if n == 5 {
            Some(PlayerActionId::OpenVehicleInventory)
        } else if n == 6 {
            Some(PlayerActionId::StartFlyingWithElytra)
        } else {
            None
        }
    }
}

impl View for PlayerActionId {
    type V = PlayerActionId;

    open spec fn view(&self) -> PlayerActionId {
        *self
    }
}

impl MCEncode for PlayerActionId {
    open spec fn spec_encode(v: PlayerActionId) -> (Result<(), PacketError>, Seq<u8>) {
        (Ok(()), varint_bytes(v.spec_id()))
    }

    fn encode(&self, dst: &mut PacketBytes) -> (r: Result<(), PacketError>) {
        proof {
            lemma_varint_bytes_len(self.spec_id());
        }
        dst.put_var_int(self.id())?;
        Ok(())
    }
}

impl MCDecode for PlayerActionId {
    open spec fn spec_decode(s: Seq<u8>) -> (Result<PlayerActionId, PacketError>, nat) {
        varint_enum_decode(s, |n: i32| PlayerActionId::from_spec_id(n))
    }

    proof fn lemma_decode_len(s: Seq<u8>) {
        lemma_varint_decode_len(s);
    }

    fn decode(src: &mut PacketBytes) -> (r: Result<Self, PacketError>) {
        let n = src.get_var_int()?;
        match Self::from_id(n) {
            Some(v) => Ok(v),
            None => Err(PacketError::InvalidEnumValue),
        }
    }
}

impl MCCodec for PlayerActionId {
    open spec fn spec_roundtrips(v: PlayerActionId) -> bool {
        true
    }

    proof fn lemma_roundtrip(v: PlayerActionId, rest: Seq<u8>) {
        lemma_varint_roundtrip(v.spec_id(), rest);
    }
}
/// What a player action does.
#[derive(PartialEq, Eq, Structural, Debug, Clone, Copy)]
pub enum PlayerActionStatus {
    StartedDigging,
    CancelledDigging,
    FinishedDigging,
    DropItemStack,
    DropItem,
    ShootArrow,
    SwapItemInHand,
}

impl PlayerActionStatus {
    /// The number that stands for the variant.
    pub open spec fn spec_id(self) -> i32 {
        match self {
            PlayerActionStatus::StartedDigging => 0,
            PlayerActionStatus::CancelledDigging => 1,
            PlayerActionStatus::FinishedDigging => 2,
            PlayerActionStatus::DropItemStack => 3,
            PlayerActionStatus::DropItem => 4,
            PlayerActionStatus::ShootArrow => 5,
            PlayerActionStatus::SwapItemInHand => 6,
        }
    }

    /// The variant that a number stands for, if any.
    pub open spec fn from_spec_id(n: i32) -> Option<PlayerActionStatus> {
        if n == 0 {
            Some(PlayerActionStatus::StartedDigging)
        } else if n == 1 {
            Some(PlayerActionStatus::CancelledDigging)
        } else if n == 2 {
            Some(PlayerActionStatus::FinishedDigging)
        } else if n == 3 {
            Some(PlayerActionStatus::DropItemStack)
        } else if n == 4 {
            Some(PlayerActionStatus::DropItem)
        } else if n == 5 {
            Some(PlayerActionStatus::ShootArrow)
        } else if n == 6 {
            Some(PlayerActionStatus::SwapItemInHand)
        } else {
            None
        }
    }

    pub fn id(&self) -> (r: i32)
        ensures
            r == self.spec_id(),
    {
        match self {
            PlayerActionStatus::StartedDigging => 0,
            PlayerActionStatus::CancelledDigging => 1,
            PlayerActionStatus::FinishedDigging => 2,
            PlayerActionStatus::DropItemStack => 3,
            PlayerActionStatus::DropItem => 4,
            PlayerActionStatus::ShootArrow => 5,
            PlayerActionStatus::SwapItemInHand => 6,
        }
    }

    pub fn from_id(n: i32) -> (r: Option<Self>)
        ensures
            r == Self::from_spec_id(n),
    {
        if n == 0 {
            Some(PlayerActionStatus::StartedDigging)
        } else if n == 1 {
            Some(PlayerActionStatus::CancelledDigging)
        } else if n == 2 {
            Some(PlayerActionStatus::FinishedDigging)
        } else if n == 3 {
            Some(PlayerActionStatus::DropItemStack)
        } else if n == 4 {
            Some(PlayerActionStatus::DropItem)
        } else if n == 5 {
            Some(PlayerActionStatus::ShootArrow)
        } else if n == 6 {
            Some(PlayerActionStatus::SwapItemInHand)
        } else {
            None
        }
    }
}

impl View for PlayerActionStatus {
    type V = PlayerActionStatus;

    open spec fn view(&self) -> PlayerActionStatus {
        *self
    }
}

impl MCEncode for PlayerActionStatus {
    open spec fn spec_encode(v: PlayerActionStatus) -> (Result<(), PacketError>, Seq<u8>) {
        (Ok(()), varint_bytes(v.spec_id()))
    }

    fn encode(&self, dst: &mut PacketBytes) -> (r: Result<(), PacketError>) {
        proof {
            lemma_varint_bytes_len(self.spec_id());
        }
        dst.put_var_int(self.id())?;
        Ok(())
    }
}

impl MCDecode for PlayerActionStatus {
    open spec fn spec_decode(s: Seq<u8>) -> (Result<PlayerActionStatus, PacketError>, nat) {
        varint_enum_decode(s, |n: i32| PlayerActionStatus::from_spec_id(n))
    }

    proof fn lemma_decode_len(s: Seq<u8>) {
        lemma_varint_decode_len(s);
    }

    fn decode(src: &mut PacketBytes) -> (r: Result<Self, PacketError>) {
        let n = src.get_var_int()?;
        match Self::from_id(n) {
            Some(v) => Ok(v),
            None => Err(PacketError::InvalidEnumValue),
        }
    }
}

impl MCCodec for PlayerActionStatus {
    open spec fn spec_roundtrips(v: PlayerActionStatus) -> bool {
        true
    }

    proof fn lemma_roundtrip(v: PlayerActionStatus, rest: Seq<u8>) {
        lemma_varint_roundtrip(v.spec_id(), rest);
    }
}
/// The face of a block, N for negative and P for positive.
#[derive(PartialEq, Eq, Structural, Debug, Clone, Copy)]
pub enum PlayerActionFace {
    NY,
    PY,
    NZ,
    PZ,
    NX,
    PX,
}

impl PlayerActionFace {
    /// The number that stands for the variant.
    pub open spec fn spec_id(self) -> u8 {
        match self {
            PlayerActionFace::NY => 0,
            PlayerActionFace::PY => 1,
            PlayerActionFace::NZ => 2,
            PlayerActionFace::PZ => 3,
            PlayerActionFace::NX => 4,
            PlayerActionFace::PX => 5,
        }
    }

    /// The variant that a number stands for, if any.
    pub open spec fn from_spec_id(n: u8) -> Option<PlayerActionFace> {
        if n == 0 {
            Some(PlayerActionFace::NY)
        } else if n == 1 {
            Some(PlayerActionFace::PY)
        } else if n == 2 {
            Some(PlayerActionFace::NZ)
        } else if n == 3 {
            Some(PlayerActionFace::PZ)
        } else if n == 4 {
            Some(PlayerActionFace::NX)
        } else if n == 5 {
            Some(PlayerActionFace::PX)
        } else {
            None
        }
    }

    pub fn id(&self) -> (r: u8)
        ensures
            r == self.spec_id(),
    {
        match self {
            PlayerActionFace::NY => 0,
            PlayerActionFace::PY => 1,
            PlayerActionFace::NZ => 2,
            PlayerActionFace::PZ => 3,
            PlayerActionFace::NX => 4,
            PlayerActionFace::PX => 5,
        }
    }

    pub fn from_id(n: u8) -> (r: Option<Self>)
        ensures
            r == Self::from_spec_id(n),
    {
        if n == 0 {
            Some(PlayerActionFace::NY)
        } else if n == 1 {
            Some(PlayerActionFace::PY)
        } else if n == 2 {
            Some(PlayerActionFace::NZ)
        } else if n == 3 {
            Some(PlayerActionFace::PZ)
        } else if n == 4 {
            Some(PlayerActionFace::NX)
        } else if n == 5 {
            Some(PlayerActionFace::PX)
        } else {
            None
        }
    }
}

impl View for PlayerActionFace {
    type V = PlayerActionFace;

    open spec fn view(&self) -> PlayerActionFace {
        *self
    }
}

impl MCEncode for PlayerActionFace {
    open spec fn spec_encode(v: PlayerActionFace) -> (Result<(), PacketError>, Seq<u8>) {
        (Ok(()), be_bytes(v.spec_id() as int, 1))
    }

    fn encode(&self, dst: &mut PacketBytes) -> (r: Result<(), PacketError>) {
        proof {
            lemma_be_bytes_len(self.spec_id() as int, 1);
        }
        dst.put_u8(self.id())?;
        Ok(())
    }
}

impl MCDecode for PlayerActionFace {
    open spec fn spec_decode(s: Seq<u8>) -> (Result<PlayerActionFace, PacketError>, nat) {
        u8_enum_decode(s, |n: u8| PlayerActionFace::from_spec_id(n))
    }

    proof fn lemma_decode_len(s: Seq<u8>) {
    }

    fn decode(src: &mut PacketBytes) -> (r: Result<Self, PacketError>) {
        let n = src.get_u8()?;
        match Self::from_id(n) {
            Some(v) => Ok(v),
            None => Err(PacketError::InvalidEnumValue),
        }
    }
}

impl MCCodec for PlayerActionFace {
    open spec fn spec_roundtrips(v: PlayerActionFace) -> bool {
        true
    }

    proof fn lemma_roundtrip(v: PlayerActionFace, rest: Seq<u8>) {
        lemma_u8_roundtrip(v.spec_id(), rest);
    }
}
/// The hand an action is done with.
#[derive(PartialEq, Eq, Structural, Debug, Clone, Copy)]
pub enum PlayerHand {
    Main,
    Off,
}

impl PlayerHand {
    /// The number that stands for the variant.
    pub open spec fn spec_id(self) -> i32 {
        match self {
            PlayerHand::Main => 0,
            PlayerHand::Off => 1,
        }
    }

    /// The variant that a number stands for, if any.
    pub open spec fn from_spec_id(n: i32) -> Option<PlayerHand> {
        if n == 0 {
            Some(PlayerHand::Main)
        } else if n == 1 {
            Some(PlayerHand::Off)
        } else {
            None
        }
    }

    pub fn id(&self) -> (r: i32)
        ensures
            r == self.spec_id(),
    {
        match self {
            PlayerHand::Main => 0,
            PlayerHand::Off => 1,
        }
    }

    pub fn from_id(n: i32) -> (r: Option<Self>)
        ensures
            r == Self::from_spec_id(n),
    {
        if n == 0 {
            Some(PlayerHand::Main)
        } else if n == 1 {
            Some(PlayerHand::Off)
        } else {
            None
        }
    }
}

impl View for PlayerHand {
    type V = PlayerHand;

    open spec fn view(&self) -> PlayerHand {
        *self
    }
}

impl MCEncode for PlayerHand {
    open spec fn spec_encode(v: PlayerHand) -> (Result<(), PacketError>, Seq<u8>) {
        (Ok(()), varint_bytes(v.spec_id()))
    }

    fn encode(&self, dst: &mut PacketBytes) -> (r: Result<(), PacketError>) {
        proof {
            lemma_varint_bytes_len(self.spec_id());
        }
        dst.put_var_int(self.id())?;
        Ok(())
    }
}

impl MCDecode for PlayerHand {
    open spec fn spec_decode(s: Seq<u8>) -> (Result<PlayerHand, PacketError>, nat) {
        varint_enum_decode(s, |n: i32| PlayerHand::from_spec_id(n))
    }

    proof fn lemma_decode_len(s: Seq<u8>) {
        lemma_varint_decode_len(s);
    }

    fn decode(src: &mut PacketBytes) -> (r: Result<Self, PacketError>) {
        let n = src.get_var_int()?;
        match Self::from_id(n) {
            Some(v) => Ok(v),
            None => Err(PacketError::InvalidEnumValue),
        }
    }
}

impl MCCodec for PlayerHand {
    open spec fn spec_roundtrips(v: PlayerHand) -> bool {
        true
    }

    proof fn lemma_roundtrip(v: PlayerHand, rest: Seq<u8>) {
        lemma_varint_roundtrip(v.spec_id(), rest);
    }
}

/// Opens or closes a bundle of packets applied together.
#[derive(Debug, Clone)]
pub struct ScBundleDelimiter;

impl View for ScBundleDelimiter {
    type V = ();

    open spec fn view(&self) -> () {
        ()
    }
}

impl ScBundleDelimiter {
    pub fn new() -> (r: Self) {
        Self
    }
}

impl MCEncode for ScBundleDelimiter {
    open spec fn spec_encode(v: ()) -> (Result<(), PacketError>, Seq<u8>) {
        (Ok(()), Seq::empty())
    }

    fn encode(&self, dst: &mut PacketBytes) -> (r: Result<(), PacketError>) {
        Ok(())
    }
}

impl MCDecode for ScBundleDelimiter {
    open spec fn spec_decode(s: Seq<u8>) -> (Result<(), PacketError>, nat) {
        (Ok(()), 0)
    }

    proof fn lemma_decode_len(s: Seq<u8>) {

    }

    fn decode(src: &mut PacketBytes) -> (r: Result<Self, PacketError>) {
        Ok(Self)
    }
}

impl Packet for ScBundleDelimiter {
    open spec fn spec_id() -> i32 {
        0x00
    }

    fn id() -> (r: i32) {
        0x00
    }
}
/// A keep alive from the server.
#[derive(Debug, Clone)]
pub struct ScKeepAlive {
    pub rand: i64,
}

impl View for ScKeepAlive {
    type V = i64;

    open spec fn view(&self) -> i64 {
        self.rand
    }
}

impl ScKeepAlive {
    pub fn new(rand: i64) -> (r: Self)
        ensures
            r.rand == rand,
    {
        Self { rand }
    }
}

impl MCEncode for ScKeepAlive {
    open spec fn spec_encode(v: i64) -> (Result<(), PacketError>, Seq<u8>) {
        let e0 = <i64 as MCEncode>::spec_encode(v);
        (e0.0, e0.1)
    }

    fn encode(&self, dst: &mut PacketBytes) -> (r: Result<(), PacketError>) {
        match self.rand.encode(dst) {
            Ok(()) => {},
            Err(e) => {
                return Err(e);
            },
        }
        Ok(())
    }
}

impl MCDecode for ScKeepAlive {
    open spec fn spec_decode(s: Seq<u8>) -> (Result<i64, PacketError>, nat) {
        let d0 = <i64 as MCDecode>::spec_decode(s);
        match d0.0 {
            Err(e) => (Err(e), (d0.1) as nat),
            Ok(v0) => (Ok(v0), (d0.1) as nat),
        }
    }

    proof fn lemma_decode_len(s: Seq<u8>) {
        <i64 as MCDecode>::lemma_decode_len(s);
    }

    fn decode(src: &mut PacketBytes) -> (r: Result<Self, PacketError>) {
        let ghost s = src@;
        let ghost n0 = <i64 as MCDecode>::spec_decode(s).1;
        proof {
            <i64 as MCDecode>::lemma_decode_len(s);
        }
        let rand = match <i64 as MCDecode>::decode(src) {
            Ok(v) => {
                assert(src@ =~= s.skip(n0 as int));
                v
            },
            Err(e) => {
                return Err(e);
            },
        };
        Ok(Self { rand })
    }
}

impl Packet for ScKeepAlive {
    open spec fn spec_id() -> i32 {
        0x2B
    }

    fn id() -> (r: i32) {
        0x2B
    }
}
/// The client's keep alive.
#[derive(Debug, Clone)]
pub struct CsKeepAlive;

impl View for CsKeepAlive {
    type V = ();

    open spec fn view(&self) -> () {
        ()
    }
}

impl CsKeepAlive {
    pub fn new() -> (r: Self) {
        Self
    }
}

impl MCEncode for CsKeepAlive {
    open spec fn spec_encode(v: ()) -> (Result<(), PacketError>, Seq<u8>) {
        (Ok(()), Seq::empty())
    }

    fn encode(&self, dst: &mut PacketBytes) -> (r: Result<(), PacketError>) {
        Ok(())
    }
}

impl MCDecode for CsKeepAlive {
    open spec fn spec_decode(s: Seq<u8>) -> (Result<(), PacketError>, nat) {
        (Ok(()), 0)
    }

    proof fn lemma_decode_len(s: Seq<u8>) {

    }

    fn decode(src: &mut PacketBytes) -> (r: Result<Self, PacketError>) {
        Ok(Self)
    }
}

impl Packet for CsKeepAlive {
    open spec fn spec_id() -> i32 {
        0x1B
    }

    fn id() -> (r: i32) {
        0x1B
    }
}
/// The client finished a tick.
#[derive(Debug, Clone)]
pub struct CsClientTickEnd;

impl View for CsClientTickEnd {
    type V = ();

    open spec fn view(&self) -> () {
        ()
    }
}

impl CsClientTickEnd {
    pub fn new() -> (r: Self) {
        Self
    }
}

impl MCEncode for CsClientTickEnd {
    open spec fn spec_encode(v: ()) -> (Result<(), PacketError>, Seq<u8>) {
        (Ok(()), Seq::empty())
    }

    fn encode(&self, dst: &mut PacketBytes) -> (r: Result<(), PacketError>) {
        Ok(())
    }
}

impl MCDecode for CsClientTickEnd {
    open spec fn spec_decode(s: Seq<u8>) -> (Result<(), PacketError>, nat) {
        (Ok(()), 0)
    }

    proof fn lemma_decode_len(s: Seq<u8>) {

    }

    fn decode(src: &mut PacketBytes) -> (r: Result<Self, PacketError>) {
        Ok(Self)
    }
}

impl Packet for CsClientTickEnd {
    open spec fn spec_id() -> i32 {
        0x0C
    }

    fn id() -> (r: i32) {
        0x0C
    }
}
/// The keys the player holds.
#[derive(Debug, Clone)]
pub struct CsPlayerInput {
    pub flags: u8,
}

impl View for CsPlayerInput {
    type V = u8;

    open spec fn view(&self) -> u8 {
        self.flags
    }
}

impl CsPlayerInput {
    pub fn new(flags: u8) -> (r: Self)
        ensures
            r.flags == flags,
    {
        Self { flags }
    }
}

impl MCEncode for CsPlayerInput {
    open spec fn spec_encode(v: u8) -> (Result<(), PacketError>, Seq<u8>) {
        let e0 = <u8 as MCEncode>::spec_encode(v);
        (e0.0, e0.1)
    }

    fn encode(&self, dst: &mut PacketBytes) -> (r: Result<(), PacketError>) {
        match self.flags.encode(dst) {
            Ok(()) => {},
            Err(e) => {
                return Err(e);
            },
        }
        Ok(())
    }
}

impl MCDecode for CsPlayerInput {
    open spec fn spec_decode(s: Seq<u8>) -> (Result<u8, PacketError>, nat) {
        let d0 = <u8 as MCDecode>::spec_decode(s);
        match d0.0 {
            Err(e) => (Err(e), (d0.1) as nat),
            Ok(v0) => (Ok(v0), (d0.1) as nat),
        }
    }

    proof fn lemma_decode_len(s: Seq<u8>) {
        <u8 as MCDecode>::lemma_decode_len(s);
    }

    fn decode(src: &mut PacketBytes) -> (r: Result<Self, PacketError>) {
        let ghost s = src@;
        let ghost n0 = <u8 as MCDecode>::spec_decode(s).1;
        proof {
            <u8 as MCDecode>::lemma_decode_len(s);
        }
        let flags = match <u8 as MCDecode>::decode(src) {
            Ok(v) => {
                assert(src@ =~= s.skip(n0 as int));
                v
            },
            Err(e) => {
                return Err(e);
            },
        };
        Ok(Self { flags })
    }
}

impl Packet for CsPlayerInput {
    open spec fn spec_id() -> i32 {
        0x2A
    }

    fn id() -> (r: i32) {
        0x2A
    }
}
/// A player command, such as starting to sprint.
#[derive(Debug, Clone)]
pub struct CsPlayerCommand {
    pub entity_id: VarInt,
    pub action_id: PlayerActionId,
    pub jump_boost: VarInt,
}

impl View for CsPlayerCommand {
    type V = (i32, PlayerActionId, i32);

    open spec fn view(&self) -> (i32, PlayerActionId, i32) {
        (self.entity_id, self.action_id, self.jump_boost)
    }
}

impl CsPlayerCommand {
    pub fn new(entity_id: VarInt, action_id: PlayerActionId, jump_boost: VarInt) -> (r: Self)
        ensures
            r.entity_id == entity_id,
            r.action_id == action_id,
            r.jump_boost == jump_boost,
    {
        Self { entity_id, action_id, jump_boost }
    }
}

impl MCEncode for CsPlayerCommand {
    open spec fn spec_encode(v: (i32, PlayerActionId, i32)) -> (Result<(), PacketError>, Seq<u8>) {
        let e0 = <EncodedVarInt as MCEncode>::spec_encode(v.0);
        if e0.0 is Err {
            (e0.0, e0.1)
        } else {
        let e1 = <PlayerActionId as MCEncode>::spec_encode(v.1);
        if e1.0 is Err {
            (e1.0, e0.1 + e1.1)
        } else {
        let e2 = <EncodedVarInt as MCEncode>::spec_encode(v.2);
        (e2.0, e0.1 + e1.1 + e2.1)
        }
        }
    }

    fn encode(&self, dst: &mut PacketBytes) -> (r: Result<(), PacketError>) {
        match EncodedVarInt(self.entity_id).encode(dst) {
            Ok(()) => {},
            Err(e) => {
                return Err(e);
            },
        }
        match self.action_id.encode(dst) {
            Ok(()) => {},
            Err(e) => {
                return Err(e);
            },
        }
        match EncodedVarInt(self.jump_boost).encode(dst) {
            Ok(()) => {},
            Err(e) => {
                return Err(e);
            },
        }
        Ok(())
    }
}

impl MCDecode for CsPlayerCommand {
    open spec fn spec_decode(s: Seq<u8>) -> (Result<(i32, PlayerActionId, i32), PacketError>, nat) {
        let d0 = <EncodedVarInt as MCDecode>::spec_decode(s);
        match d0.0 {
            Err(e) => (Err(e), (d0.1) as nat),
            Ok(v0) => {
        let d1 = <PlayerActionId as MCDecode>::spec_decode(s.skip((d0.1) as int));
        match d1.0 {
            Err(e) => (Err(e), (d0.1 + d1.1) as nat),
            Ok(v1) => {
        let d2 = <EncodedVarInt as MCDecode>::spec_decode(s.skip((d0.1 + d1.1) as int));
        match d2.0 {
            Err(e) => (Err(e), (d0.1 + d1.1 + d2.1) as nat),
            Ok(v2) => (Ok((v0, v1, v2)), (d0.1 + d1.1 + d2.1) as nat),
        }
        },
        }
        },
        }
    }

    proof fn lemma_decode_len(s: Seq<u8>) {
        <EncodedVarInt as MCDecode>::lemma_decode_len(s);
        let n0 = <EncodedVarInt as MCDecode>::spec_decode(s).1;
        <PlayerActionId as MCDecode>::lemma_decode_len(s.skip(n0 as int));
        let n1 = n0 + <PlayerActionId as MCDecode>::spec_decode(s.skip(n0 as int)).1;
        <EncodedVarInt as MCDecode>::lemma_decode_len(s.skip(n1 as int));
    }

    fn decode(src: &mut PacketBytes) -> (r: Result<Self, PacketError>) {
        let ghost s = src@;
        let ghost n0 = <EncodedVarInt as MCDecode>::spec_decode(s).1;
        proof {
            <EncodedVarInt as MCDecode>::lemma_decode_len(s);
        }
        let entity_id = match <EncodedVarInt as MCDecode>::decode(src) {
            Ok(v) => {
                assert(src@ =~= s.skip(n0 as int));
                v.0
            },
            Err(e) => {
                return Err(e);
            },
        };
        let ghost n1 = n0 + <PlayerActionId as MCDecode>::spec_decode(s.skip(n0 as int)).1;
        proof {
            <PlayerActionId as MCDecode>::lemma_decode_len(s.skip(n0 as int));
        }
        let action_id = match <PlayerActionId as MCDecode>::decode(src) {
            Ok(v) => {
                assert(s.skip(n0 as int).skip((<PlayerActionId as MCDecode>::spec_decode(s.skip(n0 as int)).1) as int) =~= s.skip(n1 as int));
                assert(src@ =~= s.skip(n1 as int));
                v
            },
            Err(e) => {
                assert(s.skip(n0 as int).skip((<PlayerActionId as MCDecode>::spec_decode(s.skip(n0 as int)).1) as int) =~= s.skip(n1 as int));
                return Err(e);
            },
        };
        let ghost n2 = n1 + <EncodedVarInt as MCDecode>::spec_decode(s.skip(n1 as int)).1;
        proof {
            <EncodedVarInt as MCDecode>::lemma_decode_len(s.skip(n1 as int));
        }
        let jump_boost = match <EncodedVarInt as MCDecode>::decode(src) {
            Ok(v) => {
                assert(s.skip(n1 as int).skip((<EncodedVarInt as MCDecode>::spec_decode(s.skip(n1 as int)).1) as int) =~= s.skip(n2 as int));
                assert(src@ =~= s.skip(n2 as int));
                v.0
            },
            Err(e) => {
                assert(s.skip(n1 as int).skip((<EncodedVarInt as MCDecode>::spec_decode(s.skip(n1 as int)).1) as int) =~= s.skip(n2 as int));
                return Err(e);
            },
        };
        Ok(Self { entity_id, action_id, jump_boost })
    }
}

impl Packet for CsPlayerCommand {
    open spec fn spec_id() -> i32 {
        0x29
    }

    fn id() -> (r: i32) {
        0x29
    }
}
/// The hotbar slot the player holds.
#[derive(Debug, Clone)]
pub struct CsSetCarriedItem {
    pub slot: i16,
}

impl View for CsSetCarriedItem {
    type V = i16;

    open spec fn view(&self) -> i16 {
        self.slot
    }
}

impl CsSetCarriedItem {
    pub fn new(slot: i16) -> (r: Self)
        ensures
            r.slot == slot,
    {
        Self { slot }
    }
}

impl MCEncode for CsSetCarriedItem {
    open spec fn spec_encode(v: i16) -> (Result<(), PacketError>, Seq<u8>) {
        let e0 = <i16 as MCEncode>::spec_encode(v);
        (e0.0, e0.1)
    }

    fn encode(&self, dst: &mut PacketBytes) -> (r: Result<(), PacketError>) {
        match self.slot.encode(dst) {
            Ok(()) => {},
            Err(e) => {
                return Err(e);
            },
        }
        Ok(())
    }
}

impl MCDecode for CsSetCarriedItem {
    open spec fn spec_decode(s: Seq<u8>) -> (Result<i16, PacketError>, nat) {
        let d0 = <i16 as MCDecode>::spec_decode(s);
        match d0.0 {
            Err(e) => (Err(e), (d0.1) as nat),
            Ok(v0) => (Ok(v0), (d0.1) as nat),
        }
    }

    proof fn lemma_decode_len(s: Seq<u8>) {
        <i16 as MCDecode>::lemma_decode_len(s);
    }

    fn decode(src: &mut PacketBytes) -> (r: Result<Self, PacketError>) {
        let ghost s = src@;
        let ghost n0 = <i16 as MCDecode>::spec_decode(s).1;
        proof {
            <i16 as MCDecode>::lemma_decode_len(s);
        }
        let slot = match <i16 as MCDecode>::decode(src) {
            Ok(v) => {
                assert(src@ =~= s.skip(n0 as int));
                v
            },
            Err(e) => {
                return Err(e);
            },
        };
        Ok(Self { slot })
    }
}

impl Packet for CsSetCarriedItem {
    open spec fn spec_id() -> i32 {
        0x34
    }

    fn id() -> (r: i32) {
        0x34
    }
}
/// A ping.
#[derive(Debug, Clone)]
pub struct CsPingRequest {
    pub payload: i64,
}

impl View for CsPingRequest {
    type V = i64;

    open spec fn view(&self) -> i64 {
        self.payload
    }
}

impl CsPingRequest {
    pub fn new(payload: i64) -> (r: Self)
        ensures
            r.payload == payload,
    {
        Self { payload }
    }
}

impl MCEncode for CsPingRequest {
    open spec fn spec_encode(v: i64) -> (Result<(), PacketError>, Seq<u8>) {
        let e0 = <i64 as MCEncode>::spec_encode(v);
        (e0.0, e0.1)
    }

    fn encode(&self, dst: &mut PacketBytes) -> (r: Result<(), PacketError>) {
        match self.payload.encode(dst) {
            Ok(()) => {},
            Err(e) => {
                return Err(e);
            },
        }
        Ok(())
    }
}

impl MCDecode for CsPingRequest {
    open spec fn spec_decode(s: Seq<u8>) -> (Result<i64, PacketError>, nat) {
        let d0 = <i64 as MCDecode>::spec_decode(s);
        match d0.0 {
            Err(e) => (Err(e), (d0.1) as nat),
            Ok(v0) => (Ok(v0), (d0.1) as nat),
        }
    }

    proof fn lemma_decode_len(s: Seq<u8>) {
        <i64 as MCDecode>::lemma_decode_len(s);
    }

    fn decode(src: &mut PacketBytes) -> (r: Result<Self, PacketError>) {
        let ghost s = src@;
        let ghost n0 = <i64 as MCDecode>::spec_decode(s).1;
        proof {
            <i64 as MCDecode>::lemma_decode_len(s);
        }
        let payload = match <i64 as MCDecode>::decode(src) {
            Ok(v) => {
                assert(src@ =~= s.skip(n0 as int));
                v
            },
            Err(e) => {
                return Err(e);
            },
        };
        Ok(Self { payload })
    }
}

impl Packet for CsPingRequest {
    open spec fn spec_id() -> i32 {
        0x25
    }

    fn id() -> (r: i32) {
        0x25
    }
}
/// The player joins the world.
#[derive(Debug, Clone)]
pub struct ScLogin {
    pub entity_id: i32,
    pub is_hardcore: bool,
    pub dimensions: Vec<String>,
    pub max_players: VarInt,
    pub view_distance: VarInt,
    pub simulation_distance: VarInt,
    pub reduced_debug_info: bool,
    pub respawn_screen: bool,
    pub limited_crafting: bool,
    pub dimension_type: VarInt,
    pub dimension: String,
    pub seed: i64,
    pub gamemode: ByteGameMode,
    pub prev_gamemode: u8,
    pub is_debug: bool,
    pub is_flat: bool,
    pub has_death_location: bool,
    pub portal_cooldown: VarInt,
    pub sea_level: VarInt,
    pub secure_chat: bool,
}

impl View for ScLogin {
    type V = (i32, bool, Seq<Seq<char>>, i32, i32, i32, bool, bool, bool, i32, Seq<char>, i64, ByteGameMode, u8, bool, bool, bool, i32, i32, bool);

    open spec fn view(&self) -> (i32, bool, Seq<Seq<char>>, i32, i32, i32, bool, bool, bool, i32, Seq<char>, i64, ByteGameMode, u8, bool, bool, bool, i32, i32, bool) {
        (self.entity_id, self.is_hardcore, self.dimensions@.map_values(|x: String| x@), self.max_players, self.view_distance, self.simulation_distance, self.reduced_debug_info, self.respawn_screen, self.limited_crafting, self.dimension_type, self.dimension@, self.seed, self.gamemode, self.prev_gamemode, self.is_debug, self.is_flat, self.has_death_location, self.portal_cooldown, self.sea_level, self.secure_chat)
    }
}

impl ScLogin {
    pub fn new(entity_id: i32, is_hardcore: bool, dimensions: Vec<String>, max_players: VarInt, view_distance: VarInt, simulation_distance: VarInt, reduced_debug_info: bool, respawn_screen: bool, limited_crafting: bool, dimension_type: VarInt, dimension: String, seed: i64, gamemode: ByteGameMode, prev_gamemode: u8, is_debug: bool, is_flat: bool, has_death_location: bool, portal_cooldown: VarInt, sea_level: VarInt, secure_chat: bool) -> (r: Self)
        ensures
            r.entity_id == entity_id,
            r.is_hardcore == is_hardcore,
            r.dimensions == dimensions,
            r.max_players == max_players,
            r.view_distance == view_distance,
            r.simulation_distance == simulation_distance,
            r.reduced_debug_info == reduced_debug_info,
            r.respawn_screen == respawn_screen,
            r.limited_crafting == limited_crafting,
            r.dimension_type == dimension_type,
            r.dimension == dimension,
            r.seed == seed,
            r.gamemode == gamemode,
            r.prev_gamemode == prev_gamemode,
            r.is_debug == is_debug,
            r.is_flat == is_flat,
            r.has_death_location == has_death_location,
            r.portal_cooldown == portal_cooldown,
            r.sea_level == sea_level,
            r.secure_chat == secure_chat,
    {
        Self { entity_id, is_hardcore, dimensions, max_players, view_distance, simulation_distance, reduced_debug_info, respawn_screen, limited_crafting, dimension_type, dimension, seed, gamemode, prev_gamemode, is_debug, is_flat, has_death_location, portal_cooldown, sea_level, secure_chat }
    }
}

/// The fields of a login after its dimensions, up to its dimension name.
pub open spec fn login_middle(v: LoginView) -> Seq<u8> {
    varint_bytes(v.3) + varint_bytes(v.4) + varint_bytes(v.5) + bool_encode(v.6).1 + bool_encode(v.7).1
        + bool_encode(v.8).1 + varint_bytes(v.9)
}

/// The fields of a login from its dimension name to its previous game mode.
pub open spec fn login_names(v: LoginView) -> Seq<u8> {
    <String as MCEncode>::spec_encode(v.10).1 + <i64 as MCEncode>::spec_encode(v.11).1
        + <ByteGameMode as MCEncode>::spec_encode(v.12).1 + <u8 as MCEncode>::spec_encode(v.13).1
}

/// The fields of a login after its previous game mode.
pub open spec fn login_flags(v: LoginView) -> Seq<u8> {
    bool_encode(v.14).1 + bool_encode(v.15).1 + bool_encode(v.16).1 + varint_bytes(v.17) + varint_bytes(v.18)
        + bool_encode(v.19).1
}

/// The fields of a login from its dimension name on.
pub open spec fn login_tail(v: LoginView) -> Seq<u8> {
    login_names(v) + login_flags(v)
}

/// The fields of a login, as values.
pub type LoginView = (i32, bool, Seq<Seq<char>>, i32, i32, i32, bool, bool, bool, i32, Seq<char>, i64, ByteGameMode, u8, bool, bool, bool, i32, i32, bool);

impl ScLogin {
    fn encode_middle(&self, dst: &mut PacketBytes)
        requires
            old(dst)@.len() + login_middle(self@).len() <= max_buffer_len(),
        ensures
            final(dst)@ == old(dst)@ + login_middle(self@),
    {
        let _ = dst.put_var_int(self.max_players);
        let _ = dst.put_var_int(self.view_distance);
        let _ = dst.put_var_int(self.simulation_distance);
        let _ = put_bool_field(dst, self.reduced_debug_info);
        let _ = put_bool_field(dst, self.respawn_screen);
        let _ = put_bool_field(dst, self.limited_crafting);
        let _ = dst.put_var_int(self.dimension_type);
        assert(dst@ =~= old(dst)@ + login_middle(self@));
    }

    fn encode_names(&self, dst: &mut PacketBytes)
        requires
            old(dst)@.len() + login_names(self@).len() <= max_buffer_len(),
        ensures
            final(dst)@ == old(dst)@ + login_names(self@),
    {
        let _ = self.dimension.encode(dst);
        let _ = self.seed.encode(dst);
        let _ = self.gamemode.encode(dst);
        let _ = self.prev_gamemode.encode(dst);
        assert(dst@ =~= old(dst)@ + login_names(self@));
    }

    fn encode_flags(&self, dst: &mut PacketBytes)
        requires
            old(dst)@.len() + login_flags(self@).len() <= max_buffer_len(),
        ensures
            final(dst)@ == old(dst)@ + login_flags(self@),
    {
        let _ = put_bool_field(dst, self.is_debug);
        let _ = put_bool_field(dst, self.is_flat);
        let _ = put_bool_field(dst, self.has_death_location);
        let _ = dst.put_var_int(self.portal_cooldown);
        let _ = dst.put_var_int(self.sea_level);
        let _ = put_bool_field(dst, self.secure_chat);
        assert(dst@ =~= old(dst)@ + login_flags(self@));
    }
}

impl MCEncode for ScLogin {
    /// The entity id, the hardcore flag, the dimensions (which may fail), then
    /// the rest.
    open spec fn spec_encode(v: LoginView) -> (Result<(), PacketError>, Seq<u8>) {
        let head = <i32 as MCEncode>::spec_encode(v.0).1 + bool_encode(v.1).1;
        let dims = array_encode::<String>(v.2);
        if dims.0 is Err {
            (dims.0, head + dims.1)
        } else {
            (Ok(()), head + dims.1 + login_middle(v) + login_tail(v))
        }
    }

    fn encode(&self, dst: &mut PacketBytes) -> (r: Result<(), PacketError>) {
        let ghost start = dst@;
        let _ = self.entity_id.encode(dst);
        let _ = put_bool_field(dst, self.is_hardcore);
        match dst.put_array(copy_strings(&self.dimensions)) {
            Ok(()) => {},
            Err(e) => {
                return Err(e);
            },
        }
        self.encode_middle(dst);
        self.encode_names(dst);
        self.encode_flags(dst);
        assert(dst@ =~= start + Self::spec_encode(self@).1);
        Ok(())
    }
}

impl Packet for ScLogin {
    open spec fn spec_id() -> i32 {
        0x30
    }

    fn id() -> (r: i32) {
        0x30
    }
}
/// An entity status.
#[derive(Debug, Clone)]
pub struct ScEntityEvent {
    pub entity_id: i32,
    pub status: EntityEvent,
}

impl View for ScEntityEvent {
    type V = (i32, EntityEvent);

    open spec fn view(&self) -> (i32, EntityEvent) {
        (self.entity_id, self.status)
    }
}

impl ScEntityEvent {
    pub fn new(entity_id: i32, status: EntityEvent) -> (r: Self)
        ensures
            r.entity_id == entity_id,
            r.status == status,
    {
        Self { entity_id, status }
    }
}

impl MCEncode for ScEntityEvent {
    open spec fn spec_encode(v: (i32, EntityEvent)) -> (Result<(), PacketError>, Seq<u8>) {
        let e0 = <i32 as MCEncode>::spec_encode(v.0);
        if e0.0 is Err {
            (e0.0, e0.1)
        } else {
        let e1 = <EntityEvent as MCEncode>::spec_encode(v.1);
        (e1.0, e0.1 + e1.1)
        }
    }

    fn encode(&self, dst: &mut PacketBytes) -> (r: Result<(), PacketError>) {
        match self.entity_id.encode(dst) {
            Ok(()) => {},
            Err(e) => {
                return Err(e);
            },
        }
        match self.status.encode(dst) {
            Ok(()) => {},
            Err(e) => {
                return Err(e);
            },
        }
        Ok(())
    }
}

impl MCDecode for ScEntityEvent {
    open spec fn spec_decode(s: Seq<u8>) -> (Result<(i32, EntityEvent), PacketError>, nat) {
        let d0 = <i32 as MCDecode>::spec_decode(s);
        match d0.0 {
            Err(e) => (Err(e), (d0.1) as nat),
            Ok(v0) => {
        let d1 = <EntityEvent as MCDecode>::spec_decode(s.skip((d0.1) as int));
        match d1.0 {
            Err(e) => (Err(e), (d0.1 + d1.1) as nat),
            Ok(v1) => (Ok((v0, v1)), (d0.1 + d1.1) as nat),
        }
        },
        }
    }

    proof fn lemma_decode_len(s: Seq<u8>) {
        <i32 as MCDecode>::lemma_decode_len(s);
        let n0 = <i32 as MCDecode>::spec_decode(s).1;
        <EntityEvent as MCDecode>::lemma_decode_len(s.skip(n0 as int));
    }

    fn decode(src: &mut PacketBytes) -> (r: Result<Self, PacketError>) {
        let ghost s = src@;
        let ghost n0 = <i32 as MCDecode>::spec_decode(s).1;
        proof {
            <i32 as MCDecode>::lemma_decode_len(s);
        }
        let entity_id = match <i32 as MCDecode>::decode(src) {
            Ok(v) => {
                assert(src@ =~= s.skip(n0 as int));
                v
            },
            Err(e) => {
                return Err(e);
            },
        };
        let ghost n1 = n0 + <EntityEvent as MCDecode>::spec_decode(s.skip(n0 as int)).1;
        proof {
            <EntityEvent as MCDecode>::lemma_decode_len(s.skip(n0 as int));
        }
        let status = match <EntityEvent as MCDecode>::decode(src) {
            Ok(v) => {
                assert(s.skip(n0 as int).skip((<EntityEvent as MCDecode>::spec_decode(s.skip(n0 as int)).1) as int) =~= s.skip(n1 as int));
                assert(src@ =~= s.skip(n1 as int));
                v
            },
            Err(e) => {
                assert(s.skip(n0 as int).skip((<EntityEvent as MCDecode>::spec_decode(s.skip(n0 as int)).1) as int) =~= s.skip(n1 as int));
                return Err(e);
            },
        };
        Ok(Self { entity_id, status })
    }
}

impl Packet for ScEntityEvent {
    open spec fn spec_id() -> i32 {
        0x22
    }

    fn id() -> (r: i32) {
        0x22
    }
}
/// The client's ability flags.
#[derive(Debug, Clone)]
pub struct CsPlayerAbilities {
    pub flags: u8,
}

impl View for CsPlayerAbilities {
    type V = u8;

    open spec fn view(&self) -> u8 {
        self.flags
    }
}

impl CsPlayerAbilities {
    pub fn new(flags: u8) -> (r: Self)
        ensures
            r.flags == flags,
    {
        Self { flags }
    }
}

impl MCEncode for CsPlayerAbilities {
    open spec fn spec_encode(v: u8) -> (Result<(), PacketError>, Seq<u8>) {
        let e0 = <u8 as MCEncode>::spec_encode(v);
        (e0.0, e0.1)
    }

    fn encode(&self, dst: &mut PacketBytes) -> (r: Result<(), PacketError>) {
        match self.flags.encode(dst) {
            Ok(()) => {},
            Err(e) => {
                return Err(e);
            },
        }
        Ok(())
    }
}

impl MCDecode for CsPlayerAbilities {
    open spec fn spec_decode(s: Seq<u8>) -> (Result<u8, PacketError>, nat) {
        let d0 = <u8 as MCDecode>::spec_decode(s);
        match d0.0 {
            Err(e) => (Err(e), (d0.1) as nat),
            Ok(v0) => (Ok(v0), (d0.1) as nat),
        }
    }

    proof fn lemma_decode_len(s: Seq<u8>) {
        <u8 as MCDecode>::lemma_decode_len(s);
    }

    fn decode(src: &mut PacketBytes) -> (r: Result<Self, PacketError>) {
        let ghost s = src@;
        let ghost n0 = <u8 as MCDecode>::spec_decode(s).1;
        proof {
            <u8 as MCDecode>::lemma_decode_len(s);
        }
        let flags = match <u8 as MCDecode>::decode(src) {
            Ok(v) => {
                assert(src@ =~= s.skip(n0 as int));
                v
            },
            Err(e) => {
                return Err(e);
            },
        };
        Ok(Self { flags })
    }
}

impl Packet for CsPlayerAbilities {
    open spec fn spec_id() -> i32 {
        0x27
    }

    fn id() -> (r: i32) {
        0x27
    }
}
/// A block action of the player.
#[derive(Debug, Clone)]
pub struct CsPlayerAction {
    pub status: PlayerActionStatus,
    pub location: Position,
    pub face: PlayerActionFace,
    pub sequence: VarInt,
}

impl View for CsPlayerAction {
    type V = (PlayerActionStatus, i64, PlayerActionFace, i32);

    open spec fn view(&self) -> (PlayerActionStatus, i64, PlayerActionFace, i32) {
        (self.status, self.location@, self.face, self.sequence)
    }
}

impl CsPlayerAction {
    pub fn new(status: PlayerActionStatus, location: Position, face: PlayerActionFace, sequence: VarInt) -> (r: Self)
        ensures
            r.status == status,
            r.location == location,
            r.face == face,
            r.sequence == sequence,
    {
        Self { status, location, face, sequence }
    }
}

impl MCEncode for CsPlayerAction {
    open spec fn spec_encode(v: (PlayerActionStatus, i64, PlayerActionFace, i32)) -> (Result<(), PacketError>, Seq<u8>) {
        let e0 = <PlayerActionStatus as MCEncode>::spec_encode(v.0);
        if e0.0 is Err {
            (e0.0, e0.1)
        } else {
        let e1 = <Position as MCEncode>::spec_encode(v.1);
        if e1.0 is Err {
            (e1.0, e0.1 + e1.1)
        } else {
        let e2 = <PlayerActionFace as MCEncode>::spec_encode(v.2);
        if e2.0 is Err {
            (e2.0, e0.1 + e1.1 + e2.1)
        } else {
        let e3 = <EncodedVarInt as MCEncode>::spec_encode(v.3);
        (e3.0, e0.1 + e1.1 + e2.1 + e3.1)
        }
        }
        }
    }

    fn encode(&self, dst: &mut PacketBytes) -> (r: Result<(), PacketError>) {
        match self.status.encode(dst) {
            Ok(()) => {},
            Err(e) => {
                return Err(e);
            },
        }
        match self.location.encode(dst) {
            Ok(()) => {},
            Err(e) => {
                return Err(e);
            },
        }
        match self.face.encode(dst) {
            Ok(()) => {},
            Err(e) => {
                return Err(e);
            },
        }
        match EncodedVarInt(self.sequence).encode(dst) {
            Ok(()) => {},
            Err(e) => {
                return Err(e);
            },
        }
        Ok(())
    }
}

impl MCDecode for CsPlayerAction {
    open spec fn spec_decode(s: Seq<u8>) -> (Result<(PlayerActionStatus, i64, PlayerActionFace, i32), PacketError>, nat) {
        let d0 = <PlayerActionStatus as MCDecode>::spec_decode(s);
        match d0.0 {
            Err(e) => (Err(e), (d0.1) as nat),
            Ok(v0) => {
        let d1 = <Position as MCDecode>::spec_decode(s.skip((d0.1) as int));
        match d1.0 {
            Err(e) => (Err(e), (d0.1 + d1.1) as nat),
            Ok(v1) => {
        let d2 = <PlayerActionFace as MCDecode>::spec_decode(s.skip((d0.1 + d1.1) as int));
        match d2.0 {
            Err(e) => (Err(e), (d0.1 + d1.1 + d2.1) as nat),
            Ok(v2) => {
        let d3 = <EncodedVarInt as MCDecode>::spec_decode(s.skip((d0.1 + d1.1 + d2.1) as int));
        match d3.0 {
            Err(e) => (Err(e), (d0.1 + d1.1 + d2.1 + d3.1) as nat),
            Ok(v3) => (Ok((v0, v1, v2, v3)), (d0.1 + d1.1 + d2.1 + d3.1) as nat),
        }
        },
        }
        },
        }
        },
        }
    }

    proof fn lemma_decode_len(s: Seq<u8>) {
        <PlayerActionStatus as MCDecode>::lemma_decode_len(s);
        let n0 = <PlayerActionStatus as MCDecode>::spec_decode(s).1;
        <Position as MCDecode>::lemma_decode_len(s.skip(n0 as int));
        let n1 = n0 + <Position as MCDecode>::spec_decode(s.skip(n0 as int)).1;
        <PlayerActionFace as MCDecode>::lemma_decode_len(s.skip(n1 as int));
        let n2 = n1 + <PlayerActionFace as MCDecode>::spec_decode(s.skip(n1 as int)).1;
        <EncodedVarInt as MCDecode>::lemma_decode_len(s.skip(n2 as int));
    }

    fn decode(src: &mut PacketBytes) -> (r: Result<Self, PacketError>) {
        let ghost s = src@;
        let ghost n0 = <PlayerActionStatus as MCDecode>::spec_decode(s).1;
        proof {
            <PlayerActionStatus as MCDecode>::lemma_decode_len(s);
        }
        let status = match <PlayerActionStatus as MCDecode>::decode(src) {
            Ok(v) => {
                assert(src@ =~= s.skip(n0 as int));
                v
            },
            Err(e) => {
                return Err(e);
            },
        };
        let ghost n1 = n0 + <Position as MCDecode>::spec_decode(s.skip(n0 as int)).1;
        proof {
            <Position as MCDecode>::lemma_decode_len(s.skip(n0 as int));
        }
        let location = match <Position as MCDecode>::decode(src) {
            Ok(v) => {
                assert(s.skip(n0 as int).skip((<Position as MCDecode>::spec_decode(s.skip(n0 as int)).1) as int) =~= s.skip(n1 as int));
                assert(src@ =~= s.skip(n1 as int));
                v
            },
            Err(e) => {
                assert(s.skip(n0 as int).skip((<Position as MCDecode>::spec_decode(s.skip(n0 as int)).1) as int) =~= s.skip(n1 as int));
                return Err(e);
            },
        };
        let ghost n2 = n1 + <PlayerActionFace as MCDecode>::spec_decode(s.skip(n1 as int)).1;
        proof {
            <PlayerActionFace as MCDecode>::lemma_decode_len(s.skip(n1 as int));
        }
        let face = match <PlayerActionFace as MCDecode>::decode(src) {
            Ok(v) => {
                assert(s.skip(n1 as int).skip((<PlayerActionFace as MCDecode>::spec_decode(s.skip(n1 as int)).1) as int) =~= s.skip(n2 as int));
                assert(src@ =~= s.skip(n2 as int));
                v
            },
            Err(e) => {
                assert(s.skip(n1 as int).skip((<PlayerActionFace as MCDecode>::spec_decode(s.skip(n1 as int)).1) as int) =~= s.skip(n2 as int));
                return Err(e);
            },
        };
        let ghost n3 = n2 + <EncodedVarInt as MCDecode>::spec_decode(s.skip(n2 as int)).1;
        proof {
            <EncodedVarInt as MCDecode>::lemma_decode_len(s.skip(n2 as int));
        }
        let sequence = match <EncodedVarInt as MCDecode>::decode(src) {
            Ok(v) => {
                assert(s.skip(n2 as int).skip((<EncodedVarInt as MCDecode>::spec_decode(s.skip(n2 as int)).1) as int) =~= s.skip(n3 as int));
                assert(src@ =~= s.skip(n3 as int));
                v.0
            },
            Err(e) => {
                assert(s.skip(n2 as int).skip((<EncodedVarInt as MCDecode>::spec_decode(s.skip(n2 as int)).1) as int) =~= s.skip(n3 as int));
                return Err(e);
            },
        };
        Ok(Self { status, location, face, sequence })
    }
}

impl Packet for CsPlayerAction {
    open spec fn spec_id() -> i32 {
        0x28
    }

    fn id() -> (r: i32) {
        0x28
    }
}
/// The client asks for a game mode.
#[derive(Debug, Clone)]
pub struct CsChangeGameMode {
    pub game_mode: GameMode,
}

impl View for CsChangeGameMode {
    type V = GameMode;

    open spec fn view(&self) -> GameMode {
        self.game_mode
    }
}

impl CsChangeGameMode {
    pub fn new(game_mode: GameMode) -> (r: Self)
        ensures
            r.game_mode == game_mode,
    {
        Self { game_mode }
    }
}

impl MCEncode for CsChangeGameMode {
    open spec fn spec_encode(v: GameMode) -> (Result<(), PacketError>, Seq<u8>) {
        let e0 = <GameMode as MCEncode>::spec_encode(v);
        (e0.0, e0.1)
    }

    fn encode(&self, dst: &mut PacketBytes) -> (r: Result<(), PacketError>) {
        match self.game_mode.encode(dst) {
            Ok(()) => {},
            Err(e) => {
                return Err(e);
            },
        }
        Ok(())
    }
}

impl MCDecode for CsChangeGameMode {
    open spec fn spec_decode(s: Seq<u8>) -> (Result<GameMode, PacketError>, nat) {
        let d0 = <GameMode as MCDecode>::spec_decode(s);
        match d0.0 {
            Err(e) => (Err(e), (d0.1) as nat),
            Ok(v0) => (Ok(v0), (d0.1) as nat),
        }
    }

    proof fn lemma_decode_len(s: Seq<u8>) {
        <GameMode as MCDecode>::lemma_decode_len(s);
    }

    fn decode(src: &mut PacketBytes) -> (r: Result<Self, PacketError>) {
        let ghost s = src@;
        let ghost n0 = <GameMode as MCDecode>::spec_decode(s).1;
        proof {
            <GameMode as MCDecode>::lemma_decode_len(s);
        }
        let game_mode = match <GameMode as MCDecode>::decode(src) {
            Ok(v) => {
                assert(src@ =~= s.skip(n0 as int));
                v
            },
            Err(e) => {
                return Err(e);
            },
        };
        Ok(Self { game_mode })
    }
}

impl Packet for CsChangeGameMode {
    open spec fn spec_id() -> i32 {
        0x04
    }

    fn id() -> (r: i32) {
        0x04
    }
}
/// A chat command, without its slash.
#[derive(Debug, Clone)]
pub struct CsChatCommand {
    pub command: String,
}

impl View for CsChatCommand {
    type V = Seq<char>;

    open spec fn view(&self) -> Seq<char> {
        self.command@
    }
}

impl CsChatCommand {
    pub fn new(command: String) -> (r: Self)
        ensures
            r.command == command,
    {
        Self { command }
    }
}

impl MCEncode for CsChatCommand {
    open spec fn spec_encode(v: Seq<char>) -> (Result<(), PacketError>, Seq<u8>) {
        let e0 = <String as MCEncode>::spec_encode(v);
        (e0.0, e0.1)
    }

    fn encode(&self, dst: &mut PacketBytes) -> (r: Result<(), PacketError>) {
        match self.command.encode(dst) {
            Ok(()) => {},
            Err(e) => {
                return Err(e);
            },
        }
        Ok(())
    }
}

impl MCDecode for CsChatCommand {
    open spec fn spec_decode(s: Seq<u8>) -> (Result<Seq<char>, PacketError>, nat) {
        let d0 = <String as MCDecode>::spec_decode(s);
        match d0.0 {
            Err(e) => (Err(e), (d0.1) as nat),
            Ok(v0) => (Ok(v0), (d0.1) as nat),
        }
    }

    proof fn lemma_decode_len(s: Seq<u8>) {
        <String as MCDecode>::lemma_decode_len(s);
    }

    fn decode(src: &mut PacketBytes) -> (r: Result<Self, PacketError>) {
        let ghost s = src@;
        let ghost n0 = <String as MCDecode>::spec_decode(s).1;
        proof {
            <String as MCDecode>::lemma_decode_len(s);
        }
        let command = match <String as MCDecode>::decode(src) {
            Ok(v) => {
                assert(src@ =~= s.skip(n0 as int));
                v
            },
            Err(e) => {
                return Err(e);
            },
        };
        Ok(Self { command })
    }
}

impl Packet for CsChatCommand {
    open spec fn spec_id() -> i32 {
        0x06
    }

    fn id() -> (r: i32) {
        0x06
    }
}
/// The chunk the client's view is centred on.
#[derive(Debug, Clone)]
pub struct ScSetCenterChunk {
    pub x: VarInt,
    pub z: VarInt,
}

impl View for ScSetCenterChunk {
    type V = (i32, i32);

    open spec fn view(&self) -> (i32, i32) {
        (self.x, self.z)
    }
}

impl ScSetCenterChunk {
    pub fn new(x: VarInt, z: VarInt) -> (r: Self)
        ensures
            r.x == x,
            r.z == z,
    {
        Self { x, z }
    }
}

impl MCEncode for ScSetCenterChunk {
    open spec fn spec_encode(v: (i32, i32)) -> (Result<(), PacketError>, Seq<u8>) {
        let e0 = <EncodedVarInt as MCEncode>::spec_encode(v.0);
        if e0.0 is Err {
            (e0.0, e0.1)
        } else {
        let e1 = <EncodedVarInt as MCEncode>::spec_encode(v.1);
        (e1.0, e0.1 + e1.1)
        }
    }

    fn encode(&self, dst: &mut PacketBytes) -> (r: Result<(), PacketError>) {
        match EncodedVarInt(self.x).encode(dst) {
            Ok(()) => {},
            Err(e) => {
                return Err(e);
            },
        }
        match EncodedVarInt(self.z).encode(dst) {
            Ok(()) => {},
            Err(e) => {
                return Err(e);
            },
        }
        Ok(())
    }
}

impl MCDecode for ScSetCenterChunk {
    open spec fn spec_decode(s: Seq<u8>) -> (Result<(i32, i32), PacketError>, nat) {
        let d0 = <EncodedVarInt as MCDecode>::spec_decode(s);
        match d0.0 {
            Err(e) => (Err(e), (d0.1) as nat),
            Ok(v0) => {
        let d1 = <EncodedVarInt as MCDecode>::spec_decode(s.skip((d0.1) as int));
        match d1.0 {
            Err(e) => (Err(e), (d0.1 + d1.1) as nat),
            Ok(v1) => (Ok((v0, v1)), (d0.1 + d1.1) as nat),
        }
        },
        }
    }

    proof fn lemma_decode_len(s: Seq<u8>) {
        <EncodedVarInt as MCDecode>::lemma_decode_len(s);
        let n0 = <EncodedVarInt as MCDecode>::spec_decode(s).1;
        <EncodedVarInt as MCDecode>::lemma_decode_len(s.skip(n0 as int));
    }

    fn decode(src: &mut PacketBytes) -> (r: Result<Self, PacketError>) {
        let ghost s = src@;
        let ghost n0 = <EncodedVarInt as MCDecode>::spec_decode(s).1;
        proof {
            <EncodedVarInt as MCDecode>::lemma_decode_len(s);
        }
        let x = match <EncodedVarInt as MCDecode>::decode(src) {
            Ok(v) => {
                assert(src@ =~= s.skip(n0 as int));
                v.0
            },
            Err(e) => {
                return Err(e);
            },
        };
        let ghost n1 = n0 + <EncodedVarInt as MCDecode>::spec_decode(s.skip(n0 as int)).1;
        proof {
            <EncodedVarInt as MCDecode>::lemma_decode_len(s.skip(n0 as int));
        }
        let z = match <EncodedVarInt as MCDecode>::decode(src) {
            Ok(v) => {
                assert(s.skip(n0 as int).skip((<EncodedVarInt as MCDecode>::spec_decode(s.skip(n0 as int)).1) as int) =~= s.skip(n1 as int));
                assert(src@ =~= s.skip(n1 as int));
                v.0
            },
            Err(e) => {
                assert(s.skip(n0 as int).skip((<EncodedVarInt as MCDecode>::spec_decode(s.skip(n0 as int)).1) as int) =~= s.skip(n1 as int));
                return Err(e);
            },
        };
        Ok(Self { x, z })
    }
}

impl Packet for ScSetCenterChunk {
    open spec fn spec_id() -> i32 {
        0x5C
    }

    fn id() -> (r: i32) {
        0x5C
    }
}
/// A batch of chunks begins.
#[derive(Debug, Clone)]
pub struct ScChunkBatchStart;

impl View for ScChunkBatchStart {
    type V = ();

    open spec fn view(&self) -> () {
        ()
    }
}

impl ScChunkBatchStart {
    pub fn new() -> (r: Self) {
        Self
    }
}

impl MCEncode for ScChunkBatchStart {
    open spec fn spec_encode(v: ()) -> (Result<(), PacketError>, Seq<u8>) {
        (Ok(()), Seq::empty())
    }

    fn encode(&self, dst: &mut PacketBytes) -> (r: Result<(), PacketError>) {
        Ok(())
    }
}

impl MCDecode for ScChunkBatchStart {
    open spec fn spec_decode(s: Seq<u8>) -> (Result<(), PacketError>, nat) {
        (Ok(()), 0)
    }

    proof fn lemma_decode_len(s: Seq<u8>) {

    }

    fn decode(src: &mut PacketBytes) -> (r: Result<Self, PacketError>) {
        Ok(Self)
    }
}

impl Packet for ScChunkBatchStart {
    open spec fn spec_id() -> i32 {
        0x0C
    }

    fn id() -> (r: i32) {
        0x0C
    }
}
/// A batch of chunks ends, with its size.
#[derive(Debug, Clone)]
pub struct ScChunkBatchFinished {
    pub batch_size: VarInt,
}

impl View for ScChunkBatchFinished {
    type V = i32;

    open spec fn view(&self) -> i32 {
        self.batch_size
    }
}

impl ScChunkBatchFinished {
    pub fn new(batch_size: VarInt) -> (r: Self)
        ensures
            r.batch_size == batch_size,
    {
        Self { batch_size }
    }
}

impl MCEncode for ScChunkBatchFinished {
    open spec fn spec_encode(v: i32) -> (Result<(), PacketError>, Seq<u8>) {
        let e0 = <EncodedVarInt as MCEncode>::spec_encode(v);
        (e0.0, e0.1)
    }

    fn encode(&self, dst: &mut PacketBytes) -> (r: Result<(), PacketError>) {
        match EncodedVarInt(self.batch_size).encode(dst) {
            Ok(()) => {},
            Err(e) => {
                return Err(e);
            },
        }
        Ok(())
    }
}

impl MCDecode for ScChunkBatchFinished {
    open spec fn spec_decode(s: Seq<u8>) -> (Result<i32, PacketError>, nat) {
        let d0 = <EncodedVarInt as MCDecode>::spec_decode(s);
        match d0.0 {
            Err(e) => (Err(e), (d0.1) as nat),
            Ok(v0) => (Ok(v0), (d0.1) as nat),
        }
    }

    proof fn lemma_decode_len(s: Seq<u8>) {
        <EncodedVarInt as MCDecode>::lemma_decode_len(s);
    }

    fn decode(src: &mut PacketBytes) -> (r: Result<Self, PacketError>) {
        let ghost s = src@;
        let ghost n0 = <EncodedVarInt as MCDecode>::spec_decode(s).1;
        proof {
            <EncodedVarInt as MCDecode>::lemma_decode_len(s);
        }
        let batch_size = match <EncodedVarInt as MCDecode>::decode(src) {
            Ok(v) => {
                assert(src@ =~= s.skip(n0 as int));
                v.0
            },
            Err(e) => {
                return Err(e);
            },
        };
        Ok(Self { batch_size })
    }
}

impl Packet for ScChunkBatchFinished {
    open spec fn spec_id() -> i32 {
        0x0B
    }

    fn id() -> (r: i32) {
        0x0B
    }
}
/// A chunk with its light, its body built by the chunk itself.
#[derive(Debug)]
pub struct ScLevelChunkWithLight {
    pub bytes: PacketBytes,
}

impl View for ScLevelChunkWithLight {
    type V = Seq<u8>;

    open spec fn view(&self) -> Seq<u8> {
        self.bytes@
    }
}

impl ScLevelChunkWithLight {
    pub fn new(bytes: PacketBytes) -> (r: Self)
        ensures
            r.bytes == bytes,
    {
        Self { bytes }
    }
}

impl MCEncode for ScLevelChunkWithLight {
    open spec fn spec_encode(v: Seq<u8>) -> (Result<(), PacketError>, Seq<u8>) {
        let e0 = (Ok(()), v);
        (e0.0, e0.1)
    }

    fn encode(&self, dst: &mut PacketBytes) -> (r: Result<(), PacketError>) {
        match put_raw(dst, &self.bytes) {
            Ok(()) => {},
            Err(e) => {
                return Err(e);
            },
        }
        Ok(())
    }
}

impl MCDecode for ScLevelChunkWithLight {
    open spec fn spec_decode(s: Seq<u8>) -> (Result<Seq<u8>, PacketError>, nat) {
        let d0 = rest_decode(s);
        match d0.0 {
            Err(e) => (Err(e), (d0.1) as nat),
            Ok(v0) => (Ok(v0), (d0.1) as nat),
        }
    }

    proof fn lemma_decode_len(s: Seq<u8>) {

    }

    fn decode(src: &mut PacketBytes) -> (r: Result<Self, PacketError>) {
        let ghost s = src@;
        let ghost n0 = rest_decode(s).1;
        let bytes = match src.get_packet_bytes() {
            Ok(v) => {
                assert(src@ =~= s.skip(n0 as int));
                v
            },
            Err(e) => {
                return Err(e);
            },
        };
        Ok(Self { bytes })
    }
}

impl Packet for ScLevelChunkWithLight {
    open spec fn spec_id() -> i32 {
        0x2C
    }

    fn id() -> (r: i32) {
        0x2C
    }
}
/// The client is to drop a chunk.
#[derive(Debug, Clone)]
pub struct ScForgetLevelChunk {
    pub z: i32,
    pub x: i32,
}

impl View for ScForgetLevelChunk {
    type V = (i32, i32);

    open spec fn view(&self) -> (i32, i32) {
        (self.z, self.x)
    }
}

impl ScForgetLevelChunk {
    pub fn new(z: i32, x: i32) -> (r: Self)
        ensures
            r.z == z,
            r.x == x,
    {
        Self { z, x }
    }
}

impl MCEncode for ScForgetLevelChunk {
    open spec fn spec_encode(v: (i32, i32)) -> (Result<(), PacketError>, Seq<u8>) {
        let e0 = <i32 as MCEncode>::spec_encode(v.0);
        if e0.0 is Err {
            (e0.0, e0.1)
        } else {
        let e1 = <i32 as MCEncode>::spec_encode(v.1);
        (e1.0, e0.1 + e1.1)
        }
    }

    fn encode(&self, dst: &mut PacketBytes) -> (r: Result<(), PacketError>) {
        match self.z.encode(dst) {
            Ok(()) => {},
            Err(e) => {
                return Err(e);
            },
        }
        match self.x.encode(dst) {
            Ok(()) => {},
            Err(e) => {
                return Err(e);
            },
        }
        Ok(())
    }
}

impl MCDecode for ScForgetLevelChunk {
    open spec fn spec_decode(s: Seq<u8>) -> (Result<(i32, i32), PacketError>, nat) {
        let d0 = <i32 as MCDecode>::spec_decode(s);
        match d0.0 {
            Err(e) => (Err(e), (d0.1) as nat),
            Ok(v0) => {
        let d1 = <i32 as MCDecode>::spec_decode(s.skip((d0.1) as int));
        match d1.0 {
            Err(e) => (Err(e), (d0.1 + d1.1) as nat),
            Ok(v1) => (Ok((v0, v1)), (d0.1 + d1.1) as nat),
        }
        },
        }
    }

    proof fn lemma_decode_len(s: Seq<u8>) {
        <i32 as MCDecode>::lemma_decode_len(s);
        let n0 = <i32 as MCDecode>::spec_decode(s).1;
        <i32 as MCDecode>::lemma_decode_len(s.skip(n0 as int));
    }

    fn decode(src: &mut PacketBytes) -> (r: Result<Self, PacketError>) {
        let ghost s = src@;
        let ghost n0 = <i32 as MCDecode>::spec_decode(s).1;
        proof {
            <i32 as MCDecode>::lemma_decode_len(s);
        }
        let z = match <i32 as MCDecode>::decode(src) {
            Ok(v) => {
                assert(src@ =~= s.skip(n0 as int));
                v
            },
            Err(e) => {
                return Err(e);
            },
        };
        let ghost n1 = n0 + <i32 as MCDecode>::spec_decode(s.skip(n0 as int)).1;
        proof {
            <i32 as MCDecode>::lemma_decode_len(s.skip(n0 as int));
        }
        let x = match <i32 as MCDecode>::decode(src) {
            Ok(v) => {
                assert(s.skip(n0 as int).skip((<i32 as MCDecode>::spec_decode(s.skip(n0 as int)).1) as int) =~= s.skip(n1 as int));
                assert(src@ =~= s.skip(n1 as int));
                v
            },
            Err(e) => {
                assert(s.skip(n0 as int).skip((<i32 as MCDecode>::spec_decode(s.skip(n0 as int)).1) as int) =~= s.skip(n1 as int));
                return Err(e);
            },
        };
        Ok(Self { z, x })
    }
}

impl Packet for ScForgetLevelChunk {
    open spec fn spec_id() -> i32 {
        0x25
    }

    fn id() -> (r: i32) {
        0x25
    }
}
/// A block changed.
#[derive(Debug, Clone)]
pub struct ScBlockUpdate {
    pub location: Position,
    pub global_block_id: VarInt,
}

impl View for ScBlockUpdate {
    type V = (i64, i32);

    open spec fn view(&self) -> (i64, i32) {
        (self.location@, self.global_block_id)
    }
}

impl ScBlockUpdate {
    pub fn new(location: Position, global_block_id: VarInt) -> (r: Self)
        ensures
            r.location == location,
            r.global_block_id == global_block_id,
    {
        Self { location, global_block_id }
    }
}

impl MCEncode for ScBlockUpdate {
    open spec fn spec_encode(v: (i64, i32)) -> (Result<(), PacketError>, Seq<u8>) {
        let e0 = <Position as MCEncode>::spec_encode(v.0);
        if e0.0 is Err {
            (e0.0, e0.1)
        } else {
        let e1 = <EncodedVarInt as MCEncode>::spec_encode(v.1);
        (e1.0, e0.1 + e1.1)
        }
    }

    fn encode(&self, dst: &mut PacketBytes) -> (r: Result<(), PacketError>) {
        match self.location.encode(dst) {
            Ok(()) => {},
            Err(e) => {
                return Err(e);
            },
        }
        match EncodedVarInt(self.global_block_id).encode(dst) {
            Ok(()) => {},
            Err(e) => {
                return Err(e);
            },
        }
        Ok(())
    }
}

impl MCDecode for ScBlockUpdate {
    open spec fn spec_decode(s: Seq<u8>) -> (Result<(i64, i32), PacketError>, nat) {
        let d0 = <Position as MCDecode>::spec_decode(s);
        match d0.0 {
            Err(e) => (Err(e), (d0.1) as nat),
            Ok(v0) => {
        let d1 = <EncodedVarInt as MCDecode>::spec_decode(s.skip((d0.1) as int));
        match d1.0 {
            Err(e) => (Err(e), (d0.1 + d1.1) as nat),
            Ok(v1) => (Ok((v0, v1)), (d0.1 + d1.1) as nat),
        }
        },
        }
    }

    proof fn lemma_decode_len(s: Seq<u8>) {
        <Position as MCDecode>::lemma_decode_len(s);
        let n0 = <Position as MCDecode>::spec_decode(s).1;
        <EncodedVarInt as MCDecode>::lemma_decode_len(s.skip(n0 as int));
    }

    fn decode(src: &mut PacketBytes) -> (r: Result<Self, PacketError>) {
        let ghost s = src@;
        let ghost n0 = <Position as MCDecode>::spec_decode(s).1;
        proof {
            <Position as MCDecode>::lemma_decode_len(s);
        }
        let location = match <Position as MCDecode>::decode(src) {
            Ok(v) => {
                assert(src@ =~= s.skip(n0 as int));
                v
            },
            Err(e) => {
                return Err(e);
            },
        };
        let ghost n1 = n0 + <EncodedVarInt as MCDecode>::spec_decode(s.skip(n0 as int)).1;
        proof {
            <EncodedVarInt as MCDecode>::lemma_decode_len(s.skip(n0 as int));
        }
        let global_block_id = match <EncodedVarInt as MCDecode>::decode(src) {
            Ok(v) => {
                assert(s.skip(n0 as int).skip((<EncodedVarInt as MCDecode>::spec_decode(s.skip(n0 as int)).1) as int) =~= s.skip(n1 as int));
                assert(src@ =~= s.skip(n1 as int));
                v.0
            },
            Err(e) => {
                assert(s.skip(n0 as int).skip((<EncodedVarInt as MCDecode>::spec_decode(s.skip(n0 as int)).1) as int) =~= s.skip(n1 as int));
                return Err(e);
            },
        };
        Ok(Self { location, global_block_id })
    }
}

impl Packet for ScBlockUpdate {
    open spec fn spec_id() -> i32 {
        0x08
    }

    fn id() -> (r: i32) {
        0x08
    }
}
/// Block changes up to a sequence number are acknowledged.
#[derive(Debug, Clone)]
pub struct ScBlockChangedAck {
    pub sequence: VarInt,
}

impl View for ScBlockChangedAck {
    type V = i32;

    open spec fn view(&self) -> i32 {
        self.sequence
    }
}

impl ScBlockChangedAck {
    pub fn new(sequence: VarInt) -> (r: Self)
        ensures
            r.sequence == sequence,
    {
        Self { sequence }
    }
}

impl MCEncode for ScBlockChangedAck {
    open spec fn spec_encode(v: i32) -> (Result<(), PacketError>, Seq<u8>) {
        let e0 = <EncodedVarInt as MCEncode>::spec_encode(v);
        (e0.0, e0.1)
    }

    fn encode(&self, dst: &mut PacketBytes) -> (r: Result<(), PacketError>) {
        match EncodedVarInt(self.sequence).encode(dst) {
            Ok(()) => {},
            Err(e) => {
                return Err(e);
            },
        }
        Ok(())
    }
}

impl MCDecode for ScBlockChangedAck {
    open spec fn spec_decode(s: Seq<u8>) -> (Result<i32, PacketError>, nat) {
        let d0 = <EncodedVarInt as MCDecode>::spec_decode(s);
        match d0.0 {
            Err(e) => (Err(e), (d0.1) as nat),
            Ok(v0) => (Ok(v0), (d0.1) as nat),
        }
    }

    proof fn lemma_decode_len(s: Seq<u8>) {
        <EncodedVarInt as MCDecode>::lemma_decode_len(s);
    }

    fn decode(src: &mut PacketBytes) -> (r: Result<Self, PacketError>) {
        let ghost s = src@;
        let ghost n0 = <EncodedVarInt as MCDecode>::spec_decode(s).1;
        proof {
            <EncodedVarInt as MCDecode>::lemma_decode_len(s);
        }
        let sequence = match <EncodedVarInt as MCDecode>::decode(src) {
            Ok(v) => {
                assert(src@ =~= s.skip(n0 as int));
                v.0
            },
            Err(e) => {
                return Err(e);
            },
        };
        Ok(Self { sequence })
    }
}

impl Packet for ScBlockChangedAck {
    open spec fn spec_id() -> i32 {
        0x04
    }

    fn id() -> (r: i32) {
        0x04
    }
}
/// A plugin message from the client.
#[derive(Debug, Clone)]
pub struct CsCustomPayload {
    pub channel: String,
    pub data: Vec<u8>,
}

impl View for CsCustomPayload {
    type V = (Seq<char>, Seq<u8>);

    open spec fn view(&self) -> (Seq<char>, Seq<u8>) {
        (self.channel@, self.data@)
    }
}

impl CsCustomPayload {
    pub fn new(channel: String, data: Vec<u8>) -> (r: Self)
        ensures
            r.channel == channel,
            r.data == data,
    {
        Self { channel, data }
    }
}

impl MCEncode for CsCustomPayload {
    open spec fn spec_encode(v: (Seq<char>, Seq<u8>)) -> (Result<(), PacketError>, Seq<u8>) {
        let e0 = <String as MCEncode>::spec_encode(v.0);
        if e0.0 is Err {
            (e0.0, e0.1)
        } else {
        let e1 = (Ok(()), v.1);
        (e1.0, e0.1 + e1.1)
        }
    }

    fn encode(&self, dst: &mut PacketBytes) -> (r: Result<(), PacketError>) {
        match self.channel.encode(dst) {
            Ok(()) => {},
            Err(e) => {
                return Err(e);
            },
        }
        match dst.put_remaining_array(copy_bytes(&self.data)) {
            Ok(()) => {},
            Err(e) => {
                return Err(e);
            },
        }
        Ok(())
    }
}

impl MCDecode for CsCustomPayload {
    open spec fn spec_decode(s: Seq<u8>) -> (Result<(Seq<char>, Seq<u8>), PacketError>, nat) {
        let d0 = <String as MCDecode>::spec_decode(s);
        match d0.0 {
            Err(e) => (Err(e), (d0.1) as nat),
            Ok(v0) => {
        let d1 = rest_decode(s.skip((d0.1) as int));
        match d1.0 {
            Err(e) => (Err(e), (d0.1 + d1.1) as nat),
            Ok(v1) => (Ok((v0, v1)), (d0.1 + d1.1) as nat),
        }
        },
        }
    }

    proof fn lemma_decode_len(s: Seq<u8>) {
        <String as MCDecode>::lemma_decode_len(s);
        let n0 = <String as MCDecode>::spec_decode(s).1;
    }

    fn decode(src: &mut PacketBytes) -> (r: Result<Self, PacketError>) {
        let ghost s = src@;
        let ghost n0 = <String as MCDecode>::spec_decode(s).1;
        proof {
            <String as MCDecode>::lemma_decode_len(s);
        }
        let channel = match <String as MCDecode>::decode(src) {
            Ok(v) => {
                assert(src@ =~= s.skip(n0 as int));
                v
            },
            Err(e) => {
                return Err(e);
            },
        };
        let ghost n1 = n0 + rest_decode(s.skip(n0 as int)).1;
        let data = match src.get_remaining_array() {
            Ok(v) => {
                assert(s.skip(n0 as int).skip((rest_decode(s.skip(n0 as int)).1) as int) =~= s.skip(n1 as int));
                assert(src@ =~= s.skip(n1 as int));
                v
            },
            Err(e) => {
                assert(s.skip(n0 as int).skip((rest_decode(s.skip(n0 as int)).1) as int) =~= s.skip(n1 as int));
                return Err(e);
            },
        };
        Ok(Self { channel, data })
    }
}

impl Packet for CsCustomPayload {
    open spec fn spec_id() -> i32 {
        0x15
    }

    fn id() -> (r: i32) {
        0x15
    }
}
/// The client confirms a teleport.
#[derive(Debug, Clone)]
pub struct CsAcceptTeleportation {
    pub id: u8,
}

impl View for CsAcceptTeleportation {
    type V = u8;

    open spec fn view(&self) -> u8 {
        self.id
    }
}

impl CsAcceptTeleportation {
    pub fn new(id: u8) -> (r: Self)
        ensures
            r.id == id,
    {
        Self { id }
    }
}

impl MCEncode for CsAcceptTeleportation {
    open spec fn spec_encode(v: u8) -> (Result<(), PacketError>, Seq<u8>) {
        let e0 = <u8 as MCEncode>::spec_encode(v);
        (e0.0, e0.1)
    }

    fn encode(&self, dst: &mut PacketBytes) -> (r: Result<(), PacketError>) {
        match self.id.encode(dst) {
            Ok(()) => {},
            Err(e) => {
                return Err(e);
            },
        }
        Ok(())
    }
}

impl MCDecode for CsAcceptTeleportation {
    open spec fn spec_decode(s: Seq<u8>) -> (Result<u8, PacketError>, nat) {
        let d0 = <u8 as MCDecode>::spec_decode(s);
        match d0.0 {
            Err(e) => (Err(e), (d0.1) as nat),
            Ok(v0) => (Ok(v0), (d0.1) as nat),
        }
    }

    proof fn lemma_decode_len(s: Seq<u8>) {
        <u8 as MCDecode>::lemma_decode_len(s);
    }

    fn decode(src: &mut PacketBytes) -> (r: Result<Self, PacketError>) {
        let ghost s = src@;
        let ghost n0 = <u8 as MCDecode>::spec_decode(s).1;
        proof {
            <u8 as MCDecode>::lemma_decode_len(s);
        }
        let id = match <u8 as MCDecode>::decode(src) {
            Ok(v) => {
                assert(src@ =~= s.skip(n0 as int));
                v
            },
            Err(e) => {
                return Err(e);
            },
        };
        Ok(Self { id })
    }
}

impl Packet for CsAcceptTeleportation {
    open spec fn spec_id() -> i32 {
        0x00
    }

    fn id() -> (r: i32) {
        0x00
    }
}
/// The client finished loading.
#[derive(Debug, Clone)]
pub struct CsPlayerLoaded;

impl View for CsPlayerLoaded {
    type V = ();

    open spec fn view(&self) -> () {
        ()
    }
}

impl CsPlayerLoaded {
    pub fn new() -> (r: Self) {
        Self
    }
}

impl MCEncode for CsPlayerLoaded {
    open spec fn spec_encode(v: ()) -> (Result<(), PacketError>, Seq<u8>) {
        (Ok(()), Seq::empty())
    }

    fn encode(&self, dst: &mut PacketBytes) -> (r: Result<(), PacketError>) {
        Ok(())
    }
}

impl MCDecode for CsPlayerLoaded {
    open spec fn spec_decode(s: Seq<u8>) -> (Result<(), PacketError>, nat) {
        (Ok(()), 0)
    }

    proof fn lemma_decode_len(s: Seq<u8>) {

    }

    fn decode(src: &mut PacketBytes) -> (r: Result<Self, PacketError>) {
        Ok(Self)
    }
}

impl Packet for CsPlayerLoaded {
    open spec fn spec_id() -> i32 {
        0x2B
    }

    fn id() -> (r: i32) {
        0x2B
    }
}
/// The player swings a hand.
#[derive(Debug, Clone)]
pub struct CsSwing {
    pub hand: PlayerHand,
}

impl View for CsSwing {
    type V = PlayerHand;

    open spec fn view(&self) -> PlayerHand {
        self.hand
    }
}

impl CsSwing {
    pub fn new(hand: PlayerHand) -> (r: Self)
        ensures
            r.hand == hand,
    {
        Self { hand }
    }
}

impl MCEncode for CsSwing {
    open spec fn spec_encode(v: PlayerHand) -> (Result<(), PacketError>, Seq<u8>) {
        let e0 = <PlayerHand as MCEncode>::spec_encode(v);
        (e0.0, e0.1)
    }

    fn encode(&self, dst: &mut PacketBytes) -> (r: Result<(), PacketError>) {
        match self.hand.encode(dst) {
            Ok(()) => {},
            Err(e) => {
                return Err(e);
            },
        }
        Ok(())
    }
}

impl MCDecode for CsSwing {
    open spec fn spec_decode(s: Seq<u8>) -> (Result<PlayerHand, PacketError>, nat) {
        let d0 = <PlayerHand as MCDecode>::spec_decode(s);
        match d0.0 {
            Err(e) => (Err(e), (d0.1) as nat),
            Ok(v0) => (Ok(v0), (d0.1) as nat),
        }
    }

    proof fn lemma_decode_len(s: Seq<u8>) {
        <PlayerHand as MCDecode>::lemma_decode_len(s);
    }

    fn decode(src: &mut PacketBytes) -> (r: Result<Self, PacketError>) {
        let ghost s = src@;
        let ghost n0 = <PlayerHand as MCDecode>::spec_decode(s).1;
        proof {
            <PlayerHand as MCDecode>::lemma_decode_len(s);
        }
        let hand = match <PlayerHand as MCDecode>::decode(src) {
            Ok(v) => {
                assert(src@ =~= s.skip(n0 as int));
                v
            },
            Err(e) => {
                return Err(e);
            },
        };
        Ok(Self { hand })
    }
}

impl Packet for CsSwing {
    open spec fn spec_id() -> i32 {
        0x3C
    }

    fn id() -> (r: i32) {
        0x3C
    }
}

impl MCCodec for ScBundleDelimiter {
    open spec fn spec_roundtrips(v: ()) -> bool {
        true
    }

    proof fn lemma_roundtrip(v: (), rest: Seq<u8>) {
        assert(Self::spec_encode(v).1 + rest =~= rest);
    }
}

impl MCCodec for ScKeepAlive {
    open spec fn spec_roundtrips(v: i64) -> bool {
        true
    }

    proof fn lemma_roundtrip(v: i64, rest: Seq<u8>) {
        let b0 = <i64 as MCEncode>::spec_encode(v).1;
        let t1 = rest;
        let t0 = b0 + t1;
        <i64 as MCCodec>::lemma_roundtrip(v, t1);
        assert(Self::spec_encode(v).1 + rest =~= t0);
    }
}

impl MCCodec for CsKeepAlive {
    open spec fn spec_roundtrips(v: ()) -> bool {
        true
    }

    proof fn lemma_roundtrip(v: (), rest: Seq<u8>) {
        assert(Self::spec_encode(v).1 + rest =~= rest);
    }
}

impl MCCodec for CsClientTickEnd {
    open spec fn spec_roundtrips(v: ()) -> bool {
        true
    }

    proof fn lemma_roundtrip(v: (), rest: Seq<u8>) {
        assert(Self::spec_encode(v).1 + rest =~= rest);
    }
}

impl MCCodec for CsPlayerInput {
    open spec fn spec_roundtrips(v: u8) -> bool {
        true
    }

    proof fn lemma_roundtrip(v: u8, rest: Seq<u8>) {
        let b0 = <u8 as MCEncode>::spec_encode(v).1;
        let t1 = rest;
        let t0 = b0 + t1;
        <u8 as MCCodec>::lemma_roundtrip(v, t1);
        assert(Self::spec_encode(v).1 + rest =~= t0);
    }
}

impl MCCodec for CsPlayerCommand {
    open spec fn spec_roundtrips(v: (i32, PlayerActionId, i32)) -> bool {
        true
    }

    proof fn lemma_roundtrip(v: (i32, PlayerActionId, i32), rest: Seq<u8>) {
        let b0 = <EncodedVarInt as MCEncode>::spec_encode(v.0).1;
        let b1 = <PlayerActionId as MCEncode>::spec_encode(v.1).1;
        let b2 = <EncodedVarInt as MCEncode>::spec_encode(v.2).1;
        let t3 = rest;
        let t2 = b2 + t3;
        let t1 = b1 + t2;
        let t0 = b0 + t1;
        <EncodedVarInt as MCCodec>::lemma_roundtrip(v.0, t1);
        <PlayerActionId as MCCodec>::lemma_roundtrip(v.1, t2);
        <EncodedVarInt as MCCodec>::lemma_roundtrip(v.2, t3);
        assert(Self::spec_encode(v).1 + rest =~= t0);
        assert(t0.skip((b0.len()) as int) =~= t1);
        assert(t0.skip((b0.len() + b1.len()) as int) =~= t2);
    }
}

impl MCCodec for CsSetCarriedItem {
    open spec fn spec_roundtrips(v: i16) -> bool {
        true
    }

    proof fn lemma_roundtrip(v: i16, rest: Seq<u8>) {
        let b0 = <i16 as MCEncode>::spec_encode(v).1;
        let t1 = rest;
        let t0 = b0 + t1;
        <i16 as MCCodec>::lemma_roundtrip(v, t1);
        assert(Self::spec_encode(v).1 + rest =~= t0);
    }
}

impl MCCodec for CsPingRequest {
    open spec fn spec_roundtrips(v: i64) -> bool {
        true
    }

    proof fn lemma_roundtrip(v: i64, rest: Seq<u8>) {
        let b0 = <i64 as MCEncode>::spec_encode(v).1;
        let t1 = rest;
        let t0 = b0 + t1;
        <i64 as MCCodec>::lemma_roundtrip(v, t1);
        assert(Self::spec_encode(v).1 + rest =~= t0);
    }
}

impl MCCodec for ScEntityEvent {
    open spec fn spec_roundtrips(v: (i32, EntityEvent)) -> bool {
        true
    }

    proof fn lemma_roundtrip(v: (i32, EntityEvent), rest: Seq<u8>) {
        let b0 = <i32 as MCEncode>::spec_encode(v.0).1;
        let b1 = <EntityEvent as MCEncode>::spec_encode(v.1).1;
        let t2 = rest;
        let t1 = b1 + t2;
        let t0 = b0 + t1;
        <i32 as MCCodec>::lemma_roundtrip(v.0, t1);
        <EntityEvent as MCCodec>::lemma_roundtrip(v.1, t2);
        assert(Self::spec_encode(v).1 + rest =~= t0);
        assert(t0.skip((b0.len()) as int) =~= t1);
    }
}

impl MCCodec for CsPlayerAbilities {
    open spec fn spec_roundtrips(v: u8) -> bool {
        true
    }

    proof fn lemma_roundtrip(v: u8, rest: Seq<u8>) {
        let b0 = <u8 as MCEncode>::spec_encode(v).1;
        let t1 = rest;
        let t0 = b0 + t1;
        <u8 as MCCodec>::lemma_roundtrip(v, t1);
        assert(Self::spec_encode(v).1 + rest =~= t0);
    }
}

impl MCCodec for CsPlayerAction {
    open spec fn spec_roundtrips(v: (PlayerActionStatus, i64, PlayerActionFace, i32)) -> bool {
        true
    }

    proof fn lemma_roundtrip(v: (PlayerActionStatus, i64, PlayerActionFace, i32), rest: Seq<u8>) {
        let b0 = <PlayerActionStatus as MCEncode>::spec_encode(v.0).1;
        let b1 = <Position as MCEncode>::spec_encode(v.1).1;
        let b2 = <PlayerActionFace as MCEncode>::spec_encode(v.2).1;
        let b3 = <EncodedVarInt as MCEncode>::spec_encode(v.3).1;
        let t4 = rest;
        let t3 = b3 + t4;
        let t2 = b2 + t3;
        let t1 = b1 + t2;
        let t0 = b0 + t1;
        <PlayerActionStatus as MCCodec>::lemma_roundtrip(v.0, t1);
        <Position as MCCodec>::lemma_roundtrip(v.1, t2);
        <PlayerActionFace as MCCodec>::lemma_roundtrip(v.2, t3);
        <EncodedVarInt as MCCodec>::lemma_roundtrip(v.3, t4);
        assert(Self::spec_encode(v).1 + rest =~= t0);
        assert(t0.skip((b0.len()) as int) =~= t1);
        assert(t0.skip((b0.len() + b1.len()) as int) =~= t2);
        assert(t0.skip((b0.len() + b1.len() + b2.len()) as int) =~= t3);
    }
}

impl MCCodec for CsChangeGameMode {
    open spec fn spec_roundtrips(v: GameMode) -> bool {
        true
    }

    proof fn lemma_roundtrip(v: GameMode, rest: Seq<u8>) {
        let b0 = <GameMode as MCEncode>::spec_encode(v).1;
        let t1 = rest;
        let t0 = b0 + t1;
        <GameMode as MCCodec>::lemma_roundtrip(v, t1);
        assert(Self::spec_encode(v).1 + rest =~= t0);
    }
}

impl MCCodec for CsChatCommand {
    /// The packet survives when its strings' lengths fit.
    open spec fn spec_roundtrips(v: Seq<char>) -> bool {
        string_fits(v)
    }

    proof fn lemma_roundtrip(v: Seq<char>, rest: Seq<u8>) {
        let b0 = <String as MCEncode>::spec_encode(v).1;
        let t1 = rest;
        let t0 = b0 + t1;
        <String as MCCodec>::lemma_roundtrip(v, t1);
        assert(Self::spec_encode(v).1 + rest =~= t0);
    }
}

impl MCCodec for ScSetCenterChunk {
    open spec fn spec_roundtrips(v: (i32, i32)) -> bool {
        true
    }

    proof fn lemma_roundtrip(v: (i32, i32), rest: Seq<u8>) {
        let b0 = <EncodedVarInt as MCEncode>::spec_encode(v.0).1;
        let b1 = <EncodedVarInt as MCEncode>::spec_encode(v.1).1;
        let t2 = rest;
        let t1 = b1 + t2;
        let t0 = b0 + t1;
        <EncodedVarInt as MCCodec>::lemma_roundtrip(v.0, t1);
        <EncodedVarInt as MCCodec>::lemma_roundtrip(v.1, t2);
        assert(Self::spec_encode(v).1 + rest =~= t0);
        assert(t0.skip((b0.len()) as int) =~= t1);
    }
}

impl MCCodec for ScChunkBatchStart {
    open spec fn spec_roundtrips(v: ()) -> bool {
        true
    }

    proof fn lemma_roundtrip(v: (), rest: Seq<u8>) {
        assert(Self::spec_encode(v).1 + rest =~= rest);
    }
}

impl MCCodec for ScChunkBatchFinished {
    open spec fn spec_roundtrips(v: i32) -> bool {
        true
    }

    proof fn lemma_roundtrip(v: i32, rest: Seq<u8>) {
        let b0 = <EncodedVarInt as MCEncode>::spec_encode(v).1;
        let t1 = rest;
        let t0 = b0 + t1;
        <EncodedVarInt as MCCodec>::lemma_roundtrip(v, t1);
        assert(Self::spec_encode(v).1 + rest =~= t0);
    }
}

impl MCCodec for ScForgetLevelChunk {
    open spec fn spec_roundtrips(v: (i32, i32)) -> bool {
        true
    }

    proof fn lemma_roundtrip(v: (i32, i32), rest: Seq<u8>) {
        let b0 = <i32 as MCEncode>::spec_encode(v.0).1;
        let b1 = <i32 as MCEncode>::spec_encode(v.1).1;
        let t2 = rest;
        let t1 = b1 + t2;
        let t0 = b0 + t1;
        <i32 as MCCodec>::lemma_roundtrip(v.0, t1);
        <i32 as MCCodec>::lemma_roundtrip(v.1, t2);
        assert(Self::spec_encode(v).1 + rest =~= t0);
        assert(t0.skip((b0.len()) as int) =~= t1);
    }
}

impl MCCodec for ScBlockUpdate {
    open spec fn spec_roundtrips(v: (i64, i32)) -> bool {
        true
    }

    proof fn lemma_roundtrip(v: (i64, i32), rest: Seq<u8>) {
        let b0 = <Position as MCEncode>::spec_encode(v.0).1;
        let b1 = <EncodedVarInt as MCEncode>::spec_encode(v.1).1;
        let t2 = rest;
        let t1 = b1 + t2;
        let t0 = b0 + t1;
        <Position as MCCodec>::lemma_roundtrip(v.0, t1);
        <EncodedVarInt as MCCodec>::lemma_roundtrip(v.1, t2);
        assert(Self::spec_encode(v).1 + rest =~= t0);
        assert(t0.skip((b0.len()) as int) =~= t1);
    }
}

impl MCCodec for ScBlockChangedAck {
    open spec fn spec_roundtrips(v: i32) -> bool {
        true
    }

    proof fn lemma_roundtrip(v: i32, rest: Seq<u8>) {
        let b0 = <EncodedVarInt as MCEncode>::spec_encode(v).1;
        let t1 = rest;
        let t0 = b0 + t1;
        <EncodedVarInt as MCCodec>::lemma_roundtrip(v, t1);
        assert(Self::spec_encode(v).1 + rest =~= t0);
    }
}

impl MCCodec for CsAcceptTeleportation {
    open spec fn spec_roundtrips(v: u8) -> bool {
        true
    }

    proof fn lemma_roundtrip(v: u8, rest: Seq<u8>) {
        let b0 = <u8 as MCEncode>::spec_encode(v).1;
        let t1 = rest;
        let t0 = b0 + t1;
        <u8 as MCCodec>::lemma_roundtrip(v, t1);
        assert(Self::spec_encode(v).1 + rest =~= t0);
    }
}

impl MCCodec for CsPlayerLoaded {
    open spec fn spec_roundtrips(v: ()) -> bool {
        true
    }

    proof fn lemma_roundtrip(v: (), rest: Seq<u8>) {
        assert(Self::spec_encode(v).1 + rest =~= rest);
    }
}

impl MCCodec for CsSwing {
    open spec fn spec_roundtrips(v: PlayerHand) -> bool {
        true
    }

    proof fn lemma_roundtrip(v: PlayerHand, rest: Seq<u8>) {
        let b0 = <PlayerHand as MCEncode>::spec_encode(v).1;
        let t1 = rest;
        let t0 = b0 + t1;
        <PlayerHand as MCCodec>::lemma_roundtrip(v, t1);
        assert(Self::spec_encode(v).1 + rest =~= t0);
    }
}

} // verus!
