//! Reading and writing UUIDs and strings on raw byte buffers.
use bytes::BytesMut;
use vstd::prelude::*;

use crate::proto::bytes_buf::{bm_new, bytes_mut_content, max_buffer_len};
use crate::proto::error::PacketError;
use crate::proto::packet_bytes::{string_bytes, string_decode, uuid_bytes, PacketBytes};

verus! {

/// Appends the 128 bits of a UUID, high half first.
pub fn write_uuid(dst: &mut BytesMut, uuid: u128) -> (r: Result<(), PacketError>)
    requires
        bytes_mut_content(*old(dst)).len() + 16 <= max_buffer_len(),
    ensures
        r is Ok,
        bytes_mut_content(*final(dst)) == bytes_mut_content(*old(dst)) + uuid_bytes(uuid),
{
    let mut tmp = bm_new();
    std::mem::swap(dst, &mut tmp);
    let mut pb = PacketBytes::wrap(tmp);
    let r = pb.put_uuid(uuid);
    *dst = pb.into_inner();
    r
}

/// Reads the 128 bits of a UUID, high half first; there must be sixteen
/// bytes, as reading past the end panics.
pub fn read_uuid(src: &mut BytesMut) -> (r: Result<u128, PacketError>)
    requires
        bytes_mut_content(*old(src)).len() >= 16,
    ensures
        r == crate::proto::packet_bytes::uuid_decode(bytes_mut_content(*old(src))).0,
        r is Ok,
        bytes_mut_content(*final(src)) == bytes_mut_content(*old(src)).skip(16),
{
    let mut tmp = bm_new();
    std::mem::swap(src, &mut tmp);
    let mut pb = PacketBytes::wrap(tmp);
    let r = pb.get_uuid();
    *src = pb.into_inner();
    r
}

/// Reads a string that has its length in front.
pub fn read_string(src: &mut BytesMut) -> (r: Result<String, PacketError>)
    ensures
        match r {
            Ok(v) => string_decode(bytes_mut_content(*old(src))).0 == Ok::<Seq<char>, PacketError>(v@),
            Err(e) => string_decode(bytes_mut_content(*old(src))).0 == Err::<Seq<char>, PacketError>(e),
        },
        bytes_mut_content(*final(src)) == bytes_mut_content(*old(src)).skip(
            string_decode(bytes_mut_content(*old(src))).1 as int,
        ),
{
    let mut tmp = bm_new();
    std::mem::swap(src, &mut tmp);
    let mut pb = PacketBytes::wrap(tmp);
    let r = pb.get_string();
    *src = pb.into_inner();
    r
}

/// Appends `s` with its length in front.
pub fn write_string(dst: &mut BytesMut, s: &str) -> (r: Result<(), PacketError>)
    requires
        bytes_mut_content(*old(dst)).len() + string_bytes(s@).len() <= max_buffer_len(),
    ensures
        r is Ok,
        bytes_mut_content(*final(dst)) == bytes_mut_content(*old(dst)) + string_bytes(s@),
{
    let mut tmp = bm_new();
    std::mem::swap(dst, &mut tmp);
    let mut pb = PacketBytes::wrap(tmp);
    let r = pb.put_str(s);
    *dst = pb.into_inner();
    r
}

} // verus!
