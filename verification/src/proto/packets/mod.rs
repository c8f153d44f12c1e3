//! Packets: each has an id and a body of fields written one after another.
use vstd::prelude::*;

use crate::codecs::base::MCEncode;
use crate::proto::bytes_buf::{lemma_be_bytes_len, lemma_be_prefix, lemma_be_roundtrip, max_buffer_len};
use crate::proto::error::PacketError;
use crate::proto::packet_bytes::{uuid_bytes, uuid_decode, PacketBytes};

pub mod config;
pub mod handshake;
pub mod login;
pub mod play;

verus! {

/// What writing a bool field gives: one byte, 1 for `true`.
pub open spec fn bool_encode(v: bool) -> (Result<(), PacketError>, Seq<u8>) {
    (Ok(()), seq![if v { 1u8 } else { 0u8 }])
}

/// What reading a bool field gives: whether its byte is 1.
pub open spec fn bool_decode(s: Seq<u8>) -> (Result<bool, PacketError>, nat) {
    if s.len() >= 1 {
        (Ok(s[0] == 1), 1)
    } else {
        (Err(PacketError::Eof), 0)
    }
}

pub fn put_bool_field(dst: &mut PacketBytes, v: bool) -> (r: Result<(), PacketError>)
    requires
        old(dst)@.len() + 1 <= max_buffer_len(),
    ensures
        r is Ok,
        final(dst)@ == old(dst)@ + bool_encode(v).1,
{
    let r = dst.put_bool(v);
    assert(dst@ =~= old(dst)@ + bool_encode(v).1);
    r
}

/// Reading back the byte of a bool gives the bool.
pub proof fn lemma_bool_roundtrip(v: bool, rest: Seq<u8>)
    ensures
        bool_encode(v).0 is Ok,
        bool_decode(bool_encode(v).1 + rest) == (Ok::<bool, PacketError>(v), 1nat),
        bool_encode(v).1.len() == 1,
{
}

/// Reading back the sixteen bytes of a UUID gives the UUID.
pub proof fn lemma_uuid_roundtrip(u: u128, rest: Seq<u8>)
    ensures
        uuid_decode(uuid_bytes(u) + rest) == (Ok::<u128, PacketError>(u), 16nat),
        uuid_bytes(u).len() == 16,
{
    lemma_be_prefix(u as int, 16, rest);
    lemma_be_bytes_len(u as int, 16);
    reveal_with_fuel(vstd::arithmetic::power::pow, 17);
    lemma_be_roundtrip(u as int, 16);
}

/// What reading the rest of a packet as one field gives: all of it.
pub open spec fn rest_decode(s: Seq<u8>) -> (Result<Seq<u8>, PacketError>, nat) {
    (Ok(s), s.len())
}

/// A copy of some bytes.
pub fn copy_bytes(v: &Vec<u8>) -> (r: Vec<u8>)
    ensures
        r@ == v@,
{
    PacketBytes::from_slice(v.as_slice()).to_vec()
}

/// Appends the bytes of a buffer.
pub fn put_raw(dst: &mut PacketBytes, v: &PacketBytes) -> (r: Result<(), PacketError>)
    requires
        old(dst)@.len() + v@.len() <= max_buffer_len(),
    ensures
        r is Ok,
        final(dst)@ == old(dst)@ + v@,
{
    dst.extend_from_slice(v.as_slice());
    Ok(())
}

/// A copy of a list of strings.
pub fn copy_strings(v: &Vec<String>) -> (r: Vec<String>)
    ensures
        r@.map_values(|x: String| x@) == v@.map_values(|x: String| x@),
{
    let mut out: Vec<String> = Vec::new();
    let mut i: usize = 0;
    while i < v.len()
        invariant
            i <= v@.len(),
            out@.map_values(|x: String| x@) == v@.take(i as int).map_values(|x: String| x@),
        decreases v@.len() - i,
    {
        out.push(v[i].clone());
        assert(v@.take(i + 1).map_values(|x: String| x@) =~= v@.take(i as int).map_values(|x: String| x@).push(v@[i as int]@));
        assert(out@.map_values(|x: String| x@) =~= v@.take(i as int).map_values(|x: String| x@).push(v@[i as int]@));
        i += 1;
    }
    assert(v@.take(v@.len() as int) =~= v@);
    out
}

/// A packet: a codec with an id.
pub trait Packet: MCEncode {
    /// The packet's id.
    spec fn spec_id() -> i32;

    fn id() -> (r: i32)
        ensures
            r == Self::spec_id(),
    ;

    /// The packet's body on its own.
    fn encoded(&self) -> (r: Result<PacketBytes, PacketError>)
        requires
            Self::spec_encode(self@).1.len() <= max_buffer_len(),
        ensures
            match r {
                Ok(b) => Self::spec_encode(self@).0 is Ok && b@ == Self::spec_encode(self@).1,
                Err(e) => Self::spec_encode(self@).0 == Err::<(), PacketError>(e),
            },
    {
        let mut dst = PacketBytes::new();
        match self.encode(&mut dst) {
            Ok(()) => Ok(dst),
            Err(e) => Err(e),
        }
    }
}

} // verus!
