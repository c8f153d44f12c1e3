use mc_blackhole::codecs::base::{MCDecode, MCEncode};
use mc_blackhole::codecs::position::Position;
use mc_blackhole::proto::packet_bytes::PacketBytes;

#[test]
fn position_test_encdec() {
    let p = Position::from_pos(18_357_644, 831, -20_882_616);
    assert_eq!(p.0, 0x4607_632C_15B4_833F);

    let p = Position(0x4607_632C_15B4_833F);
    let position = p.decoded();
    assert_eq!(position, (18_357_644, 831, -20_882_616));
}

#[test]
fn position_packs_negative_coordinates() {
    let p = Position::from_pos(-1, -1, -1);
    assert_eq!(p.decoded(), (-1, -1, -1));
    let p = Position::from_pos(0, 0, 0);
    assert_eq!(p.0, 0);
    assert_eq!(Position::encode_position(1, 2, 3), (1i64 << 38) | (3i64 << 12) | 2);
    assert_eq!(Position::decode_position((1i64 << 38) | (3i64 << 12) | 2), (1, 2, 3));
}

#[test]
fn position_extreme_coordinates_roundtrip() {
    let cases = [
        (33_554_431, 2047, 33_554_431),
        (-33_554_432, -2048, -33_554_432),
        (12_345, -64, -54_321),
    ];
    for (x, y, z) in cases {
        assert_eq!(Position::from_pos(x, y, z).decoded(), (x, y, z));
    }
}

#[test]
fn position_codec_roundtrip() {
    let p = Position::from_pos(100, 64, -200);
    let mut buf = PacketBytes::new();
    p.encode(&mut buf).unwrap();
    assert_eq!(buf.len(), 8);
    let back = Position::decode(&mut buf).unwrap();
    assert_eq!(back.0, p.0);
    assert!(buf.is_empty());
}
