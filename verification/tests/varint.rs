use bytes::BytesMut;
use mc_blackhole::proto::error::PacketError;
use mc_blackhole::proto::packet_bytes::PacketBytes;
use mc_blackhole::proto::varint::{read_var_int, write_var_int};

fn encode(v: i32) -> Vec<u8> {
    let mut b = PacketBytes::new();
    b.put_var_int(v).unwrap();
    b.to_vec()
}

#[test]
fn varint_known_encodings() {
    assert_eq!(encode(0), vec![0x00]);
    assert_eq!(encode(1), vec![0x01]);
    assert_eq!(encode(127), vec![0x7f]);
    assert_eq!(encode(128), vec![0x80, 0x01]);
    assert_eq!(encode(300), vec![0xac, 0x02]);
    assert_eq!(encode(2_147_483_647), vec![0xff, 0xff, 0xff, 0xff, 0x07]);
    assert_eq!(encode(-1), vec![0xff, 0xff, 0xff, 0xff, 0x0f]);
    assert_eq!(encode(i32::MIN), vec![0x80, 0x80, 0x80, 0x80, 0x08]);
}

#[test]
fn varint_roundtrip_values() {
    for v in [0, 1, -1, 63, 64, 127, 128, 255, 25565, 2_097_151, i32::MAX, i32::MIN, -12345] {
        let mut b = PacketBytes::from_slice(&encode(v));
        b.extend_from_slice(&[0xAA]);
        assert_eq!(b.get_var_int(), Ok(v));
        assert_eq!(b.to_vec(), vec![0xAA]);
    }
}

#[test]
fn varint_errors_leave_buffer() {
    let mut b = PacketBytes::from_slice(&[0x80, 0x80]);
    assert_eq!(b.get_var_int(), Err(PacketError::Eof));
    assert_eq!(b.len(), 2);
    let mut b = PacketBytes::from_slice(&[0x80, 0x80, 0x80, 0x80, 0x80, 0x01]);
    assert_eq!(b.get_var_int(), Err(PacketError::VarIntTooBig));
    assert_eq!(b.len(), 6);
    let mut b = PacketBytes::new();
    assert_eq!(b.get_var_int(), Err(PacketError::Eof));
}

#[test]
fn varint_on_raw_buffers() {
    let mut dst = BytesMut::new();
    write_var_int(&mut dst, 25565);
    assert_eq!(&dst[..], &[0xdd, 0xc7, 0x01]);
    assert_eq!(read_var_int(&mut dst), Ok(25565));
    assert!(dst.is_empty());
}
