use bytes::BytesMut;
use mc_blackhole::codecs::game_profile::GameProfile;
use mc_blackhole::codecs::itemstack::ItemStack;
use mc_blackhole::codecs::base::{MCDecode, MCEncode};
use mc_blackhole::proto::error::PacketError;
use mc_blackhole::proto::packet_bytes::PacketBytes;
use mc_blackhole::proto::utils::{read_string, read_uuid, write_string, write_uuid};
use mc_blackhole::proto::varint::EncodedVarInt;

#[test]
fn fixed_width_integers_are_big_endian() {
    let mut b = PacketBytes::new();
    b.put_u8(0x12).unwrap();
    b.put_u16(0x3456).unwrap();
    b.put_i32(-2).unwrap();
    b.put_u64(0x0102_0304_0506_0708).unwrap();
    b.put_i16(-3).unwrap();
    assert_eq!(
        b.to_vec(),
        vec![0x12, 0x34, 0x56, 0xff, 0xff, 0xff, 0xfe, 1, 2, 3, 4, 5, 6, 7, 8, 0xff, 0xfd]
    );
    assert_eq!(b.get_u8(), Ok(0x12));
    assert_eq!(b.get_u16(), Ok(0x3456));
    assert_eq!(b.get_i32(), Ok(-2));
    assert_eq!(b.get_u64(), Ok(0x0102_0304_0506_0708));
    assert_eq!(b.get_i16(), Ok(-3));
    assert_eq!(b.get_u8(), Err(PacketError::Eof));
}

#[test]
fn short_reads_fail_with_eof() {
    let mut b = PacketBytes::from_slice(&[1, 2, 3]);
    assert_eq!(b.get_i32(), Err(PacketError::Eof));
    assert_eq!(b.len(), 3);
    assert_eq!(b.get_i64(), Err(PacketError::Eof));
}

#[test]
fn bools_read_true_only_for_one() {
    let mut b = PacketBytes::new();
    b.put_bool(true).unwrap();
    b.put_bool(false).unwrap();
    b.extend_from_slice(&[2]);
    assert_eq!(b.to_vec(), vec![1, 0, 2]);
    assert_eq!(b.get_bool(), Ok(true));
    assert_eq!(b.get_bool(), Ok(false));
    assert_eq!(b.get_bool(), Ok(false));
    assert_eq!(b.get_bool(), Err(PacketError::Eof));
}

#[test]
fn strings_carry_their_length() {
    let mut b = PacketBytes::new();
    b.put_string("héllo".to_owned()).unwrap();
    assert_eq!(b.to_vec(), vec![6, b'h', 0xc3, 0xa9, b'l', b'l', b'o']);
    assert_eq!(b.get_string(), Ok("héllo".to_owned()));
    assert!(b.is_empty());
}

#[test]
fn string_errors() {
    let mut b = PacketBytes::from_slice(&[5, b'a', b'b']);
    assert_eq!(b.get_string(), Err(PacketError::StringTruncated));
    let mut b = PacketBytes::from_slice(&[2, 0xff, 0xfe]);
    assert_eq!(b.get_string(), Err(PacketError::InvalidUtf8));
}

#[test]
fn uuids_are_two_big_endian_halves() {
    let u: u128 = 0x0011_2233_4455_6677_8899_aabb_ccdd_eeff;
    let mut b = PacketBytes::new();
    b.put_uuid(u).unwrap();
    assert_eq!(
        b.to_vec(),
        vec![0x00, 0x11, 0x22, 0x33, 0x44, 0x55, 0x66, 0x77, 0x88, 0x99, 0xaa, 0xbb, 0xcc, 0xdd, 0xee, 0xff]
    );
    assert_eq!(b.get_uuid(), Ok(u));
    let mut short = PacketBytes::from_slice(&[1, 2, 3]);
    assert_eq!(short.get_uuid(), Err(PacketError::Eof));
}

#[test]
fn raw_buffer_helpers() {
    let mut dst = BytesMut::new();
    write_uuid(&mut dst, 7).unwrap();
    write_string(&mut dst, "ok").unwrap();
    assert_eq!(dst.len(), 19);
    assert_eq!(read_uuid(&mut dst), Ok(7));
    assert_eq!(read_string(&mut dst), Ok("ok".to_owned()));
    assert!(dst.is_empty());
}

#[test]
fn arrays_have_a_count_in_front() {
    let mut b = PacketBytes::new();
    b.put_array(vec![EncodedVarInt(1), EncodedVarInt(300)]).unwrap();
    assert_eq!(b.to_vec(), vec![2, 1, 0xac, 0x02]);
    let back: Vec<EncodedVarInt> = b.get_array().unwrap();
    assert_eq!(back, vec![EncodedVarInt(1), EncodedVarInt(300)]);
}

#[test]
fn byte_arrays_and_remaining_bytes() {
    let mut b = PacketBytes::new();
    b.put_byte_array(vec![-1, 2]).unwrap();
    assert_eq!(b.to_vec(), vec![0xff, 2]);
    // reading the bytes as signed leaves them in the buffer
    assert_eq!(b.get_byte_array(), Ok(vec![-1, 2]));
    assert_eq!(b.len(), 2);
    b.put_remaining_array(vec![9, 8, 7]).unwrap();
    assert_eq!(b.get_remaining_array(), Ok(vec![0xff, 2, 9, 8, 7]));
    assert!(b.is_empty());
}

#[test]
fn split_and_advance() {
    let mut b = PacketBytes::from_slice(&[1, 2, 3, 4, 5]);
    let head = b.split_to(2);
    assert_eq!(head.to_vec(), vec![1, 2]);
    b.advance(1);
    assert_eq!(b.to_vec(), vec![4, 5]);
    assert_eq!(b.byte_at(1), 5);
    let all = b.split();
    assert_eq!(all.to_vec(), vec![4, 5]);
    assert!(b.is_empty());
    assert_eq!(&all.freeze()[..], &[4, 5]);
}

#[test]
fn game_profile_codec() {
    let gp = GameProfile::new(5, "Steve".to_owned());
    let mut b = PacketBytes::new();
    gp.encode(&mut b).unwrap();
    let mut expected = vec![0u8; 15];
    expected.push(5);
    expected.extend_from_slice(&[5, b'S', b't', b'e', b'v', b'e', 0]);
    assert_eq!(b.to_vec(), expected);
    let back = GameProfile::decode(&mut b).unwrap();
    assert_eq!(back.uuid, 5);
    assert_eq!(back.username, "Steve");
}

#[test]
fn game_profile_rejects_long_names() {
    let gp = GameProfile::new(1, "abcdefghijklmnopq".to_owned());
    let mut b = PacketBytes::new();
    assert_eq!(gp.encode(&mut b), Err(PacketError::UsernameTooLong));
}

#[test]
fn item_stacks() {
    let empty = ItemStack::empty();
    assert_eq!(empty.count, 0);
    assert!(empty.item.is_none());
    let mut b = PacketBytes::new();
    empty.encode(&mut b).unwrap();
    assert_eq!(b.to_vec(), vec![0]);
    let full = ItemStack { count: 2, item: Some(300) };
    let mut b = PacketBytes::new();
    full.encode(&mut b).unwrap();
    assert_eq!(b.to_vec(), vec![2, 0xac, 0x02]);
    let back = ItemStack::decode(&mut b).unwrap();
    assert_eq!((back.count, back.item), (2, Some(300)));
    let bad = ItemStack { count: 1, item: None };
    let mut b = PacketBytes::new();
    assert_eq!(bad.encode(&mut b), Err(PacketError::MissingItem));
}

#[test]
fn game_profiles_through_the_buffer() {
    let mut b = PacketBytes::default();
    assert!(b.is_empty());
    b.put_game_profile(GameProfile::new(9, "Bob".to_owned())).unwrap();
    let gp = b.get_game_profile().unwrap();
    assert_eq!((gp.uuid, gp.username.as_str()), (9, "Bob"));
    assert_eq!(b.to_vec(), vec![0]);
}

#[test]
fn remaining_integer_widths() {
    let mut b = PacketBytes::new();
    b.put_i8(-2).unwrap();
    b.put_u32(0xdead_beef).unwrap();
    b.put_i64(-3).unwrap();
    assert_eq!(
        b.to_vec(),
        vec![0xfe, 0xde, 0xad, 0xbe, 0xef, 0xff, 0xff, 0xff, 0xff, 0xff, 0xff, 0xff, 0xfd]
    );
    assert_eq!(b.get_i8(), Ok(-2));
    assert_eq!(b.get_u32(), Ok(0xdead_beef));
    assert_eq!(b.get_i64(), Ok(-3));
    assert_eq!(b.get_i8(), Err(PacketError::Eof));
    assert_eq!(b.get_u16(), Err(PacketError::Eof));
}
