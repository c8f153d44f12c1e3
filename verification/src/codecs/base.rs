//! The traits for values that travel in packets, and their impls for
//! integers and strings.
use vstd::prelude::*;
use vstd::utf8::{encode_utf8, encode_utf8_decode_utf8, encode_utf8_valid_utf8};

use crate::proto::bytes_buf::{
    be_bytes, be_value, lemma_be_bytes_len, lemma_be_prefix, lemma_be_roundtrip,
    lemma_pow256_values, max_buffer_len,
};
use crate::proto::error::{same_outcome, PacketError};
use crate::proto::packet_bytes::{string_bytes, string_decode, PacketBytes};
use crate::proto::varint::{lemma_varint_roundtrip, varint_bytes};

verus! {

/// A value that can be written to a packet.
pub trait MCEncode: View + Sized {
    /// What writing the value `v` does: the outcome, and the bytes appended
    /// (on an error, those appended before it).
    spec fn spec_encode(v: Self::V) -> (Result<(), PacketError>, Seq<u8>);

    fn encode(&self, dst: &mut PacketBytes) -> (r: Result<(), PacketError>)
        requires
            old(dst)@.len() + Self::spec_encode(self@).1.len() <= max_buffer_len(),
        ensures
            same_outcome(r, Self::spec_encode(self@).0),
            final(dst)@ == old(dst)@ + Self::spec_encode(self@).1,
    ;
}

/// A value that can be read from a packet.
pub trait MCDecode: View + Sized {
    /// What reading a value from the front of `s` gives, and how many bytes it
    /// takes (on an error, those taken before it).
    spec fn spec_decode(s: Seq<u8>) -> (Result<Self::V, PacketError>, nat);

    /// Reading never takes more bytes than there are.
    proof fn lemma_decode_len(s: Seq<u8>)
        ensures
            Self::spec_decode(s).1 <= s.len(),
    ;

    fn decode(src: &mut PacketBytes) -> (r: Result<Self, PacketError>)
        ensures
            match r {
                Ok(v) => Self::spec_decode(old(src)@).0 == Ok::<Self::V, PacketError>(v@),
                Err(e) => Self::spec_decode(old(src)@).0 == Err::<Self::V, PacketError>(e),
            },
            final(src)@ == old(src)@.skip(Self::spec_decode(old(src)@).1 as int),
    ;
}

/// A value whose bytes read back as the value.
pub trait MCCodec: MCEncode + MCDecode {
    /// Whether `v` survives a write and a read.
    spec fn spec_roundtrips(v: <Self as View>::V) -> bool;

    /// Writing `v` and reading from the bytes, whatever follows them, gives `v`
    /// back and takes exactly the bytes written.
    proof fn lemma_roundtrip(v: <Self as View>::V, rest: Seq<u8>)
        requires
            Self::spec_roundtrips(v),
        ensures
            Self::spec_encode(v).0 is Ok,
            Self::spec_decode(Self::spec_encode(v).1 + rest) == (Ok::<<Self as View>::V, PacketError>(v), Self::spec_encode(v).1.len()),
    ;
}

impl MCEncode for u8 {
    open spec fn spec_encode(v: u8) -> (Result<(), PacketError>, Seq<u8>) {
        (Ok(()), be_bytes(v as int, 1))
    }

    fn encode(&self, dst: &mut PacketBytes) -> (r: Result<(), PacketError>) {
        proof {
            lemma_be_bytes_len(*self as int, 1);
        }
        dst.put_u8(*self)?;
        Ok(())
    }
}

impl MCDecode for u8 {
    open spec fn spec_decode(s: Seq<u8>) -> (Result<u8, PacketError>, nat) {
        if s.len() >= 1 {
            (Ok(be_value(s.take(1)) as u8), 1)
        } else {
            (Err(PacketError::Eof), 0)
        }
    }

    proof fn lemma_decode_len(s: Seq<u8>) {
    }

    fn decode(src: &mut PacketBytes) -> (r: Result<u8, PacketError>) {
        src.get_u8()
    }
}

impl MCCodec for u8 {
    open spec fn spec_roundtrips(v: u8) -> bool {
        true
    }

    proof fn lemma_roundtrip(v: u8, rest: Seq<u8>) {
        lemma_pow256_values();
        lemma_be_prefix(v as int, 1, rest);
        lemma_be_bytes_len(v as int, 1);
        lemma_be_roundtrip(v as int, 1);
    }
}

impl MCEncode for u16 {
    open spec fn spec_encode(v: u16) -> (Result<(), PacketError>, Seq<u8>) {
        (Ok(()), be_bytes(v as int, 2))
    }

    fn encode(&self, dst: &mut PacketBytes) -> (r: Result<(), PacketError>) {
        proof {
            lemma_be_bytes_len(*self as int, 2);
        }
        dst.put_u16(*self)?;
        Ok(())
    }
}

impl MCDecode for u16 {
    open spec fn spec_decode(s: Seq<u8>) -> (Result<u16, PacketError>, nat) {
        if s.len() >= 2 {
            (Ok(be_value(s.take(2)) as u16), 2)
        } else {
            (Err(PacketError::Eof), 0)
        }
    }

    proof fn lemma_decode_len(s: Seq<u8>) {
    }

    fn decode(src: &mut PacketBytes) -> (r: Result<u16, PacketError>) {
        src.get_u16()
    }
}

impl MCCodec for u16 {
    open spec fn spec_roundtrips(v: u16) -> bool {
        true
    }

    proof fn lemma_roundtrip(v: u16, rest: Seq<u8>) {
        lemma_pow256_values();
        lemma_be_prefix(v as int, 2, rest);
        lemma_be_bytes_len(v as int, 2);
        lemma_be_roundtrip(v as int, 2);
    }
}

impl MCEncode for u32 {
    open spec fn spec_encode(v: u32) -> (Result<(), PacketError>, Seq<u8>) {
        (Ok(()), be_bytes(v as int, 4))
    }

    fn encode(&self, dst: &mut PacketBytes) -> (r: Result<(), PacketError>) {
        proof {
            lemma_be_bytes_len(*self as int, 4);
        }
        dst.put_u32(*self)?;
        Ok(())
    }
}

impl MCDecode for u32 {
    open spec fn spec_decode(s: Seq<u8>) -> (Result<u32, PacketError>, nat) {
        if s.len() >= 4 {
            (Ok(be_value(s.take(4)) as u32), 4)
        } else {
            (Err(PacketError::Eof), 0)
        }
    }

    proof fn lemma_decode_len(s: Seq<u8>) {
    }

    fn decode(src: &mut PacketBytes) -> (r: Result<u32, PacketError>) {
        src.get_u32()
    }
}

impl MCCodec for u32 {
    open spec fn spec_roundtrips(v: u32) -> bool {
        true
    }

    proof fn lemma_roundtrip(v: u32, rest: Seq<u8>) {
        lemma_pow256_values();
        lemma_be_prefix(v as int, 4, rest);
        lemma_be_bytes_len(v as int, 4);
        lemma_be_roundtrip(v as int, 4);
    }
}

impl MCEncode for u64 {
    open spec fn spec_encode(v: u64) -> (Result<(), PacketError>, Seq<u8>) {
        (Ok(()), be_bytes(v as int, 8))
    }

    fn encode(&self, dst: &mut PacketBytes) -> (r: Result<(), PacketError>) {
        proof {
            lemma_be_bytes_len(*self as int, 8);
        }
        dst.put_u64(*self)?;
        Ok(())
    }
}

impl MCDecode for u64 {
    open spec fn spec_decode(s: Seq<u8>) -> (Result<u64, PacketError>, nat) {
        if s.len() >= 8 {
            (Ok(be_value(s.take(8)) as u64), 8)
        } else {
            (Err(PacketError::Eof), 0)
        }
    }

    proof fn lemma_decode_len(s: Seq<u8>) {
    }

    fn decode(src: &mut PacketBytes) -> (r: Result<u64, PacketError>) {
        src.get_u64()
    }
}

impl MCCodec for u64 {
    open spec fn spec_roundtrips(v: u64) -> bool {
        true
    }

    proof fn lemma_roundtrip(v: u64, rest: Seq<u8>) {
        lemma_pow256_values();
        lemma_be_prefix(v as int, 8, rest);
        lemma_be_bytes_len(v as int, 8);
        lemma_be_roundtrip(v as int, 8);
    }
}

impl MCEncode for i8 {
    open spec fn spec_encode(v: i8) -> (Result<(), PacketError>, Seq<u8>) {
        (Ok(()), be_bytes(v as u8 as int, 1))
    }

    fn encode(&self, dst: &mut PacketBytes) -> (r: Result<(), PacketError>) {
        proof {
            lemma_be_bytes_len(*self as u8 as int, 1);
        }
        dst.put_i8(*self)?;
        Ok(())
    }
}

impl MCDecode for i8 {
    open spec fn spec_decode(s: Seq<u8>) -> (Result<i8, PacketError>, nat) {
        if s.len() >= 1 {
            (Ok(be_value(s.take(1)) as u8 as i8), 1)
        } else {
            (Err(PacketError::Eof), 0)
        }
    }

    proof fn lemma_decode_len(s: Seq<u8>) {
    }

    fn decode(src: &mut PacketBytes) -> (r: Result<i8, PacketError>) {
        src.get_i8()
    }
}

impl MCCodec for i8 {
    open spec fn spec_roundtrips(v: i8) -> bool {
        true
    }

    proof fn lemma_roundtrip(v: i8, rest: Seq<u8>) {
        lemma_pow256_values();
        lemma_be_prefix(v as u8 as int, 1, rest);
        lemma_be_bytes_len(v as u8 as int, 1);
        lemma_be_roundtrip(v as u8 as int, 1);
        assert((v as u8) as i8 == v) by (bit_vector);
    }
}

impl MCEncode for i16 {
    open spec fn spec_encode(v: i16) -> (Result<(), PacketError>, Seq<u8>) {
        (Ok(()), be_bytes(v as u16 as int, 2))
    }

    fn encode(&self, dst: &mut PacketBytes) -> (r: Result<(), PacketError>) {
        proof {
            lemma_be_bytes_len(*self as u16 as int, 2);
        }
        dst.put_i16(*self)?;
        Ok(())
    }
}

impl MCDecode for i16 {
    open spec fn spec_decode(s: Seq<u8>) -> (Result<i16, PacketError>, nat) {
        if s.len() >= 2 {
            (Ok(be_value(s.take(2)) as u16 as i16), 2)
        } else {
            (Err(PacketError::Eof), 0)
        }
    }

    proof fn lemma_decode_len(s: Seq<u8>) {
    }

    fn decode(src: &mut PacketBytes) -> (r: Result<i16, PacketError>) {
        src.get_i16()
    }
}

impl MCCodec for i16 {
    open spec fn spec_roundtrips(v: i16) -> bool {
        true
    }

    proof fn lemma_roundtrip(v: i16, rest: Seq<u8>) {
        lemma_pow256_values();
        lemma_be_prefix(v as u16 as int, 2, rest);
        lemma_be_bytes_len(v as u16 as int, 2);
        lemma_be_roundtrip(v as u16 as int, 2);
        assert((v as u16) as i16 == v) by (bit_vector);
    }
}

impl MCEncode for i32 {
    open spec fn spec_encode(v: i32) -> (Result<(), PacketError>, Seq<u8>) {
        (Ok(()), be_bytes(v as u32 as int, 4))
    }

    fn encode(&self, dst: &mut PacketBytes) -> (r: Result<(), PacketError>) {
        proof {
            lemma_be_bytes_len(*self as u32 as int, 4);
        }
        dst.put_i32(*self)?;
        Ok(())
    }
}

impl MCDecode for i32 {
    open spec fn spec_decode(s: Seq<u8>) -> (Result<i32, PacketError>, nat) {
        if s.len() >= 4 {
            (Ok(be_value(s.take(4)) as u32 as i32), 4)
        } else {
            (Err(PacketError::Eof), 0)
        }
    }

    proof fn lemma_decode_len(s: Seq<u8>) {
    }

    fn decode(src: &mut PacketBytes) -> (r: Result<i32, PacketError>) {
        src.get_i32()
    }
}

impl MCCodec for i32 {
    open spec fn spec_roundtrips(v: i32) -> bool {
        true
    }

    proof fn lemma_roundtrip(v: i32, rest: Seq<u8>) {
        lemma_pow256_values();
        lemma_be_prefix(v as u32 as int, 4, rest);
        lemma_be_bytes_len(v as u32 as int, 4);
        lemma_be_roundtrip(v as u32 as int, 4);
        assert((v as u32) as i32 == v) by (bit_vector);
    }
}

impl MCEncode for i64 {
    open spec fn spec_encode(v: i64) -> (Result<(), PacketError>, Seq<u8>) {
        (Ok(()), be_bytes(v as u64 as int, 8))
    }

    fn encode(&self, dst: &mut PacketBytes) -> (r: Result<(), PacketError>) {
        proof {
            lemma_be_bytes_len(*self as u64 as int, 8);
        }
        dst.put_i64(*self)?;
        Ok(())
    }
}

impl MCDecode for i64 {
    open spec fn spec_decode(s: Seq<u8>) -> (Result<i64, PacketError>, nat) {
        if s.len() >= 8 {
            (Ok(be_value(s.take(8)) as u64 as i64), 8)
        } else {
            (Err(PacketError::Eof), 0)
        }
    }

    proof fn lemma_decode_len(s: Seq<u8>) {
    }

    fn decode(src: &mut PacketBytes) -> (r: Result<i64, PacketError>) {
        src.get_i64()
    }
}

impl MCCodec for i64 {
    open spec fn spec_roundtrips(v: i64) -> bool {
        true
    }

    proof fn lemma_roundtrip(v: i64, rest: Seq<u8>) {
        lemma_pow256_values();
        lemma_be_prefix(v as u64 as int, 8, rest);
        lemma_be_bytes_len(v as u64 as int, 8);
        lemma_be_roundtrip(v as u64 as int, 8);
        assert((v as u64) as i64 == v) by (bit_vector);
    }
}

/// A string takes its bytes' count as a VarInt, which must not wrap.
pub open spec fn string_fits(s: Seq<char>) -> bool {
    encode_utf8(s).len() <= i32::MAX
}

/// Writing a string whose length fits and reading it back gives the string,
/// and takes exactly the bytes written.
pub proof fn lemma_string_roundtrip(s: Seq<char>, rest: Seq<u8>)
    requires
        string_fits(s),
    ensures
        string_decode(string_bytes(s) + rest) == (Ok::<Seq<char>, PacketError>(s), string_bytes(s).len()),
{
    let u = encode_utf8(s);
    let n = u.len() as i32;
    lemma_varint_roundtrip(n, u + rest);
    let all = string_bytes(s) + rest;
    assert(all == varint_bytes(n) + (u + rest));
    let k = varint_bytes(n).len();
    assert(all.skip(k as int) =~= u + rest);
    assert((u + rest).take(u.len() as int) =~= u);
    assert(n as usize == u.len());
    encode_utf8_valid_utf8(s);
    encode_utf8_decode_utf8(s);
}

/// Reading a string never takes more bytes than there are.
pub proof fn lemma_string_decode_len(s: Seq<u8>)
    ensures
        string_decode(s).1 <= s.len(),
{
    crate::proto::varint::lemma_varint_decode_len(s);
}

impl MCEncode for String {
    open spec fn spec_encode(v: Seq<char>) -> (Result<(), PacketError>, Seq<u8>) {
        (Ok(()), string_bytes(v))
    }

    fn encode(&self, dst: &mut PacketBytes) -> (r: Result<(), PacketError>) {
        dst.put_string(self.clone())?;
        Ok(())
    }
}

impl MCDecode for String {
    open spec fn spec_decode(s: Seq<u8>) -> (Result<Seq<char>, PacketError>, nat) {
        string_decode(s)
    }

    proof fn lemma_decode_len(s: Seq<u8>) {
        crate::proto::varint::lemma_varint_decode_len(s);
    }

    fn decode(src: &mut PacketBytes) -> (r: Result<String, PacketError>) {
        src.get_string()
    }
}

impl MCCodec for String {
    open spec fn spec_roundtrips(v: Seq<char>) -> bool {
        string_fits(v)
    }

    proof fn lemma_roundtrip(v: Seq<char>, rest: Seq<u8>) {
        lemma_string_roundtrip(v, rest);
    }
}

} // verus!
