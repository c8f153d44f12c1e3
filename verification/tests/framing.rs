use mc_blackhole::net::framing::{
    frame_compressed, frame_packet, read_frame, split_packet_id, VarIntReader, VarIntStep, DISABLED,
};
use mc_blackhole::proto::packet_bytes::PacketBytes;
use mc_blackhole::proto::error::PacketError;

#[test]
fn uncompressed_frames() {
    let f = frame_packet(0x05, &[1, 2, 3], DISABLED).unwrap();
    assert_eq!(f, vec![4, 0x05, 1, 2, 3]);
    let (id, rest) = read_frame(&f[1..], DISABLED).unwrap();
    assert_eq!(id, 0x05);
    assert_eq!(rest.to_vec(), vec![1, 2, 3]);
}

#[test]
fn small_packets_below_threshold_are_marked_uncompressed() {
    let f = frame_packet(0x05, &[1, 2, 3], 256).unwrap();
    assert_eq!(f, vec![5, 0, 0x05, 1, 2, 3]);
    let (id, rest) = read_frame(&f[1..], 256).unwrap();
    assert_eq!(id, 0x05);
    assert_eq!(rest.to_vec(), vec![1, 2, 3]);
}

#[test]
fn large_packets_are_compressed_and_read_back() {
    let body = vec![7u8; 1000];
    let f = frame_packet(0x2C, &body, 256).unwrap();
    assert!(f.len() < 200);
    // the length prefix names the rest, which starts with the raw length 1001
    assert_eq!(f[0] as usize, f.len() - 1);
    assert_eq!(&f[1..3], &[0xe9, 0x07]);
    let (id, rest) = read_frame(&f[1..], 256).unwrap();
    assert_eq!(id, 0x2C);
    assert_eq!(rest.to_vec(), body);
}

#[test]
fn threshold_zero_compresses_everything() {
    let f = frame_packet(0x01, &[], 0).unwrap();
    assert_eq!(f[1], 1);
    assert_ne!(&f[2..], &[0x01]);
    let (id, rest) = read_frame(&f[1..], 0).unwrap();
    assert_eq!(id, 0x01);
    assert!(rest.is_empty());
}

#[test]
fn broken_frames() {
    assert_eq!(read_frame(&[], DISABLED).map(|(i, _)| i), Err(PacketError::Eof));
    assert_eq!(read_frame(&[0x80], 256).map(|(i, _)| i), Err(PacketError::Eof));
    assert_eq!(
        read_frame(&[5, 1, 2, 3], 256).map(|(i, _)| i),
        Err(PacketError::Decompression)
    );
}

#[test]
fn stream_varints() {
    let mut r = VarIntReader::new();
    assert!(matches!(r.push(0xac), VarIntStep::More));
    assert!(matches!(r.push(0x02), VarIntStep::Done(300)));
    let mut r = VarIntReader::new();
    assert!(matches!(r.push(0x00), VarIntStep::Done(0)));
    let mut r = VarIntReader::new();
    for _ in 0..5 {
        assert!(matches!(r.push(0xff), VarIntStep::More));
    }
    assert!(matches!(r.push(0x01), VarIntStep::TooBig));
}

#[test]
fn compressed_frame_layout() {
    assert_eq!(frame_compressed(300, vec![1, 2, 3]), vec![5, 0xac, 0x02, 1, 2, 3]);
    assert_eq!(frame_compressed(0, vec![]), vec![1, 0]);
}

#[test]
fn packet_ids_split_off() {
    let (id, rest) = split_packet_id(PacketBytes::from_slice(&[0xac, 0x02, 7])).unwrap();
    assert_eq!(id, 300);
    assert_eq!(rest.to_vec(), vec![7]);
    assert_eq!(split_packet_id(PacketBytes::new()).map(|(i, _)| i), Err(PacketError::Eof));
}
