use mc_blackhole::codecs::base::{MCDecode, MCEncode};
use mc_blackhole::codecs::game_profile::GameProfile;
use mc_blackhole::codecs::position::Position;
use mc_blackhole::proto::error::PacketError;
use mc_blackhole::proto::packet_bytes::PacketBytes;
use mc_blackhole::proto::packets::config::{
    KnownPack, ScFinishConfiguration, ScRegistries, ScSelectKnownPacks, ScUpdateEnabledFeatures,
};
use mc_blackhole::proto::packets::handshake::CsIntention;
use mc_blackhole::proto::packets::login::{CsLoginStart, ScLoginSuccess, ScSetCompression};
use mc_blackhole::proto::packets::play::{
    ByteGameMode, CsChangeGameMode, CsChatCommand, CsPlayerAbilities, EntityEvent, GameEvent,
    GameMode, ScBlockUpdate, ScBundleDelimiter, ScChunkBatchFinished, ScEntityEvent,
    ScForgetLevelChunk, ScKeepAlive, ScLevelChunkWithLight, ScLogin, ScSetCenterChunk,
};
use mc_blackhole::proto::packets::Packet;

fn body<T: Packet>(p: &T) -> Vec<u8> {
    p.encoded().unwrap().to_vec()
}

#[test]
fn ids() {
    assert_eq!(ScSetCompression::id(), 0x03);
    assert_eq!(ScLoginSuccess::id(), 0x02);
    assert_eq!(CsIntention::id(), 0x00);
    assert_eq!(ScKeepAlive::id(), 0x2B);
    assert_eq!(ScSetCenterChunk::id(), 0x5C);
    assert_eq!(ScLevelChunkWithLight::id(), 0x2C);
    assert_eq!(ScBlockUpdate::id(), 0x08);
    assert_eq!(ScLogin::id(), 0x30);
    assert_eq!(ScFinishConfiguration::id(), 0x03);
}

#[test]
fn handshake_decodes() {
    let mut b = PacketBytes::new();
    b.put_var_int(773).unwrap();
    b.put_str("localhost").unwrap();
    b.put_u16(25565).unwrap();
    b.put_var_int(2).unwrap();
    let pkt = CsIntention::decode(&mut b).unwrap();
    assert_eq!(pkt.protocol_version, 773);
    assert_eq!(pkt.server_address, "localhost");
    assert_eq!(pkt.server_port, 25565);
    assert_eq!(pkt.intent, 2);
    assert!(b.is_empty());
    let mut short = PacketBytes::from_slice(&[0x85, 0x06, 3, b'a']);
    assert_eq!(CsIntention::decode(&mut short).map(|p| p.intent), Err(PacketError::StringTruncated));
}

#[test]
fn login_packets() {
    assert_eq!(body(&ScSetCompression::new(256)), vec![0x80, 0x02]);
    let ls = ScLoginSuccess::new(GameProfile::new(1, "a".to_owned()));
    let mut expected = vec![0; 15];
    expected.extend_from_slice(&[1, 1, b'a', 0]);
    assert_eq!(body(&ls), expected);
    let mut b = PacketBytes::new();
    b.put_str("Alex").unwrap();
    b.put_uuid(42).unwrap();
    let start = CsLoginStart::decode(&mut b).unwrap();
    assert_eq!(start.username, "Alex");
    assert_eq!(start.uuid, 42);
}

#[test]
fn config_packets() {
    let f = ScUpdateEnabledFeatures::new(vec!["minecraft:vanilla".to_owned()]);
    let mut expected = vec![1, 17];
    expected.extend_from_slice(b"minecraft:vanilla");
    assert_eq!(body(&f), expected);
    let k = ScSelectKnownPacks::new(vec![KnownPack::new(
        "minecraft".to_owned(),
        "core".to_owned(),
        "1.21.10".to_owned(),
    )]);
    let mut expected = vec![1, 9];
    expected.extend_from_slice(b"minecraft");
    expected.push(4);
    expected.extend_from_slice(b"core");
    expected.push(7);
    expected.extend_from_slice(b"1.21.10");
    assert_eq!(body(&k), expected);
    assert_eq!(body(&ScRegistries::new(vec![1, 2, 3])), vec![1, 2, 3]);
    assert!(body(&ScFinishConfiguration::new()).is_empty());
}

#[test]
fn play_packets() {
    assert!(body(&ScBundleDelimiter::new()).is_empty());
    assert_eq!(body(&ScKeepAlive::new(1)), vec![0, 0, 0, 0, 0, 0, 0, 1]);
    assert_eq!(body(&ScSetCenterChunk::new(-1, 2)), vec![0xff, 0xff, 0xff, 0xff, 0x0f, 2]);
    assert_eq!(body(&ScChunkBatchFinished::new(5)), vec![5]);
    assert_eq!(body(&ScForgetLevelChunk::new(1, 2)), vec![0, 0, 0, 1, 0, 0, 0, 2]);
    assert_eq!(
        body(&ScEntityEvent::new(0, EntityEvent::SetOpPermissionLevel4)),
        vec![0, 0, 0, 0, 28]
    );
    let upd = ScBlockUpdate::new(Position::from_pos(0, 1, 0), 85);
    assert_eq!(body(&upd), vec![0, 0, 0, 0, 0, 0, 0, 1, 85]);
    let chunk = ScLevelChunkWithLight::new(PacketBytes::from_slice(&[9, 9]));
    assert_eq!(body(&chunk), vec![9, 9]);
}

#[test]
fn client_play_packets_decode() {
    let mut b = PacketBytes::from_slice(&[0x02]);
    assert_eq!(CsPlayerAbilities::decode(&mut b).unwrap().flags, 2);
    let mut b = PacketBytes::from_slice(&[3]);
    assert_eq!(CsChangeGameMode::decode(&mut b).unwrap().game_mode, GameMode::Spectator);
    let mut b = PacketBytes::from_slice(&[9]);
    assert!(matches!(CsChangeGameMode::decode(&mut b), Err(PacketError::InvalidEnumValue)));
    let mut b = PacketBytes::from_slice(&[4, b's', b't', b'o', b'p']);
    assert_eq!(CsChatCommand::decode(&mut b).unwrap().command, "stop");
}

#[test]
fn enums_travel_as_their_numbers() {
    let mut b = PacketBytes::new();
    GameEvent::StartWaitingForChunks.encode(&mut b).unwrap();
    ByteGameMode::Creative.encode(&mut b).unwrap();
    GameMode::Adventure.encode(&mut b).unwrap();
    assert_eq!(b.to_vec(), vec![13, 1, 2]);
    assert_eq!(GameEvent::decode(&mut b).unwrap(), GameEvent::StartWaitingForChunks);
    assert_eq!(ByteGameMode::decode(&mut b).unwrap(), ByteGameMode::Creative);
    assert_eq!(GameMode::decode(&mut b).unwrap(), GameMode::Adventure);
    let mut bad = PacketBytes::from_slice(&[14]);
    assert_eq!(GameEvent::decode(&mut bad), Err(PacketError::InvalidEnumValue));
    assert!(bad.is_empty());
}

#[test]
fn join_packet_layout() {
    let login = ScLogin::new(
        0,
        false,
        vec!["overworld".to_owned()],
        1,
        16,
        16,
        false,
        false,
        false,
        0,
        "overworld".to_owned(),
        0,
        ByteGameMode::Survival,
        0xFF,
        false,
        false,
        false,
        0,
        63,
        false,
    );
    let mut expected = vec![0, 0, 0, 0, 0, 1, 9];
    expected.extend_from_slice(b"overworld");
    expected.extend_from_slice(&[1, 16, 16, 0, 0, 0, 0, 9]);
    expected.extend_from_slice(b"overworld");
    expected.extend_from_slice(&[0, 0, 0, 0, 0, 0, 0, 0, 0, 0xFF, 0, 0, 0, 0, 63, 0]);
    assert_eq!(body(&login), expected);
}
