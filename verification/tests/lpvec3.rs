use mc_blackhole::codecs::lpvec3::{LpVec3Bits, decode_lpvec3_bits};
use mc_blackhole::proto::error::PacketError;
use mc_blackhole::proto::packet_bytes::PacketBytes;

/// The float that a quantized component stands for at a given scale.
fn from_quantized(q: i64, scale: i64) -> f64 {
    ((q as f64 / 32766.0) - 0.5) / 0.5 * scale as f64
}

#[test]
fn lpvec3_test_encdec() {
    // (0.0, 0.0, 0.0)          0x00
    // (1.0, 0.0, -1.0)         0xF1 0xFF 0x00 0x00 0xFF 0xFF
    // (10.0, 0.2, -5.0)        0xF6 0xFF 0x40 0x01 0x05 0x1F 0x02
    // (123457.0, 15.071, 0.0)  0xF5 0xFF 0x7F 0xFF 0x00 0x07 0x90 0xF1 0x01
    let table: [(LpVec3Bits, [f64; 3], Vec<u8>); 4] = [
        (LpVec3Bits::Zero, [0.0, 0.0, 0.0], vec![0x00]),
        (
            LpVec3Bits::Scaled { scale: 1, qx: 32766, qy: 16383, qz: 0 },
            [1.0, 0.0, -1.0],
            vec![0xF1, 0xFF, 0x00, 0x00, 0xFF, 0xFF],
        ),
        (
            LpVec3Bits::Scaled { scale: 10, qx: 32766, qy: 16711, qz: 8192 },
            [10.0, 0.2, -5.0],
            vec![0xF6, 0xFF, 0x40, 0x01, 0x05, 0x1F, 0x02],
        ),
        (
            LpVec3Bits::Scaled { scale: 123_457, qx: 32766, qy: 16385, qz: 16383 },
            [123_457.0, 15.071, 0.0],
            vec![0xF5, 0xFF, 0x7F, 0xFF, 0x00, 0x07, 0x90, 0xF1, 0x01],
        ),
    ];
    for (expected, floats, hex) in table {
        let mut pb = PacketBytes::from_slice(&hex);
        let decoded = decode_lpvec3_bits(&mut pb);
        assert_eq!(decoded, Ok(expected), "bytes: {hex:?}");
        assert!(pb.is_empty());
        if let LpVec3Bits::Scaled { scale, qx, qy, qz } = expected {
            let step = scale as f64 / 16383.0;
            for (q, f) in [qx, qy, qz].into_iter().zip(floats) {
                assert!((from_quantized(q, scale) - f).abs() <= step, "{q} at {scale} vs {f}");
            }
        }
    }
}

#[test]
fn lpvec3_zero_takes_one_byte() {
    let mut b = PacketBytes::from_slice(&[0, 9]);
    assert_eq!(decode_lpvec3_bits(&mut b), Ok(LpVec3Bits::Zero));
    assert_eq!(b.to_vec(), vec![9]);
}

#[test]
fn lpvec3_components_and_scale() {
    // first byte: qx low bits 5, header 1; word: qy = 7
    let mut b = PacketBytes::from_slice(&[0x29, 0x00, 0, 0, 0, 28]);
    assert_eq!(
        decode_lpvec3_bits(&mut b),
        Ok(LpVec3Bits::Scaled { scale: 1, qx: 5, qy: 7, qz: 0 })
    );
    assert!(b.is_empty());
    // a zero scale without extension is the zero vector
    let mut b = PacketBytes::from_slice(&[0x28, 0x00, 0, 0, 0, 0]);
    assert_eq!(decode_lpvec3_bits(&mut b), Ok(LpVec3Bits::Zero));
    assert!(b.is_empty());
}

#[test]
fn lpvec3_extended_scale() {
    let mut b = PacketBytes::from_slice(&[0x06, 0x00, 0, 0, 0, 0, 3]);
    assert_eq!(
        decode_lpvec3_bits(&mut b),
        Ok(LpVec3Bits::Scaled { scale: 14, qx: 0, qy: 0, qz: 0 })
    );
    assert!(b.is_empty());
}

#[test]
fn lpvec3_short_input() {
    let mut b = PacketBytes::from_slice(&[]);
    assert_eq!(decode_lpvec3_bits(&mut b), Err(PacketError::Eof));
    let mut b = PacketBytes::from_slice(&[0x01]);
    assert_eq!(decode_lpvec3_bits(&mut b), Err(PacketError::Eof));
    assert_eq!(b.len(), 0);
    let mut b = PacketBytes::from_slice(&[0x01, 0, 0]);
    assert_eq!(decode_lpvec3_bits(&mut b), Err(PacketError::Eof));
    assert_eq!(b.len(), 1);
    let mut b = PacketBytes::from_slice(&[0x04, 0, 0, 0, 0, 0, 0x80]);
    assert_eq!(decode_lpvec3_bits(&mut b), Err(PacketError::Eof));
    assert_eq!(b.len(), 1);
}
