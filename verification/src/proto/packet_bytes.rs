//! The buffer that packet fields are written to and read from.
use bytes::{Bytes, BytesMut};
use uuid::Uuid;
use vstd::prelude::*;
use vstd::utf8::{decode_utf8, encode_utf8, valid_utf8};

use crate::proto::bytes_buf::{
    be_bytes, be_value, bm_advance, bm_as_slice, bm_byte, bm_extend_from_slice, bm_from_slice,
    bm_len, bm_new, bm_put_i16, bm_put_i32, bm_put_i64, bm_put_i8, bm_put_u16, bm_put_u32,
    bm_put_u64, bm_put_u8, bm_split, bm_split_to, bm_to_vec, bm_try_get_i16, bm_try_get_i32,
    bm_try_get_i64, bm_try_get_i8, bm_try_get_u16, bm_try_get_u32, bm_try_get_u64,
    bm_try_get_u8, bytes_mut_content, max_buffer_len,
};
use crate::codecs::base::{MCCodec, MCDecode, MCEncode};
use crate::codecs::game_profile::GameProfile;
use crate::proto::error::{same_outcome, PacketError};
use crate::proto::varint::{
    lemma_varint_bytes_len, lemma_varint_roundtrip, read_var_int, varint_bytes, varint_decode, varint_value, write_var_int,
};

verus! {

#[verifier::external_type_specification]
#[verifier::external_body]
pub struct ExBytes(Bytes);

/// The bytes that a frozen `Bytes` holds.
pub uninterp spec fn bytes_content(b: Bytes) -> Seq<u8>;

/// `BytesMut::freeze`: the same bytes, made immutable.
#[verifier::external_body]
fn bm_freeze(b: BytesMut) -> (r: Bytes)
    ensures
        bytes_content(r) == bytes_mut_content(b),
{
    b.freeze()
}

/// `Uuid::from_u64_pair` read back with `Uuid::as_u128`: the 128 bits whose
/// high half is `high` and low half is `low`.
#[verifier::external_body]
fn uuid_bits_from_pair(high: u64, low: u64) -> (r: u128)
    ensures
        r == high as int * 0x1_0000_0000_0000_0000 + low as int,
{
    Uuid::from_u64_pair(high, low).as_u128()
}

/// `String::from_utf8`: the string whose UTF-8 bytes these are, if they are
/// valid UTF-8.
#[verifier::external_body]
fn string_from_utf8(v: Vec<u8>) -> (r: Option<String>)
    ensures
        r is Some <==> valid_utf8(v@),
        r matches Some(s) ==> s@ == decode_utf8(v@),
{
    String::from_utf8(v).ok()
}

/// The bytes of a length-prefixed string: the VarInt of its UTF-8 length,
/// then its UTF-8 bytes. A length past `i32::MAX` wraps as `as i32` does.
pub open spec fn string_bytes(s: Seq<char>) -> Seq<u8> {
    varint_bytes(encode_utf8(s).len() as i32) + encode_utf8(s)
}

/// What reading a length-prefixed string from the front of `s` gives, and how
/// many bytes it takes (the length prefix is taken also when the rest fails).
pub open spec fn string_decode(s: Seq<u8>) -> (Result<Seq<char>, PacketError>, nat) {
    match varint_decode(s) {
        Err(e) => (Err(e), 0),
        Ok((n, k)) => {
            let rest = s.skip(k as int);
            let len = n as usize;
            if rest.len() < len {
                (Err(PacketError::StringTruncated), k)
            } else if valid_utf8(rest.take(len as int)) {
                (Ok(decode_utf8(rest.take(len as int))), (k + len) as nat)
            } else {
                (Err(PacketError::InvalidUtf8), (k + len) as nat)
            }
        },
    }
}

/// The sixteen bytes of a UUID, most significant first.
pub open spec fn uuid_bytes(u: u128) -> Seq<u8> {
    be_bytes(u as int, 16)
}

/// What reading a UUID gives: its value, or `Eof` with the number of bytes
/// taken (eight when only its high half is there).
pub open spec fn uuid_decode(s: Seq<u8>) -> (Result<u128, PacketError>, nat) {
    if s.len() >= 16 {
        (Ok(be_value(s.take(16)) as u128), 16)
    } else if s.len() >= 8 {
        (Err(PacketError::Eof), 8)
    } else {
        (Err(PacketError::Eof), 0)
    }
}

/// What writing the values one after another does: the outcome, and the
/// bytes appended. Writing stops at the first value that fails.
pub open spec fn encode_all<T: MCEncode>(vs: Seq<T::V>) -> (Result<(), PacketError>, Seq<u8>)
    decreases vs.len(),
{
    if vs.len() == 0 {
        (Ok(()), Seq::empty())
    } else {
        let (r, b) = encode_all::<T>(vs.drop_last());
        if r is Err {
            (r, b)
        } else {
            let (r2, b2) = T::spec_encode(vs.last());
            (r2, b + b2)
        }
    }
}

/// What writing an array does: its length as a VarInt (wrapping as `as i32`
/// does), then its values.
pub open spec fn array_encode<T: MCEncode>(vs: Seq<T::V>) -> (Result<(), PacketError>, Seq<u8>) {
    (encode_all::<T>(vs).0, varint_bytes(vs.len() as i32) + encode_all::<T>(vs).1)
}

/// What reading `n` values one after another from the front of `s` gives, and
/// how many bytes it takes. Reading stops at the first value that fails.
pub open spec fn decode_all<T: MCDecode>(s: Seq<u8>, n: nat) -> (Result<Seq<T::V>, PacketError>, nat)
    decreases n,
{
    if n == 0 {
        (Ok(Seq::empty()), 0)
    } else {
        let (r, c) = decode_all::<T>(s, (n - 1) as nat);
        match r {
            Err(e) => (Err(e), c),
            Ok(vs) => {
                let (r2, c2) = T::spec_decode(s.skip(c as int));
                match r2 {
                    Ok(v) => (Ok(vs.push(v)), c + c2),
                    Err(e) => (Err(e), c + c2),
                }
            },
        }
    }
}

/// What reading an array gives: a VarInt count, then that many values.
pub open spec fn array_decode<T: MCDecode>(s: Seq<u8>) -> (Result<Seq<T::V>, PacketError>, nat) {
    match varint_decode(s) {
        Err(e) => (Err(e), 0),
        Ok((n, k)) => {
            let (r, c) = decode_all::<T>(s.skip(k as int), n as nat);
            (r, k + c)
        },
    }
}

/// Writing bytes never shrinks as more values are written.
pub proof fn lemma_encode_all_grows<T: MCEncode>(vs: Seq<T::V>, i: int)
    requires
        0 <= i <= vs.len(),
    ensures
        encode_all::<T>(vs.take(i)).1.len() <= encode_all::<T>(vs).1.len(),
    decreases vs.len() - i,
{
    if i < vs.len() {
        lemma_encode_all_grows::<T>(vs, i + 1);
        assert(vs.take(i + 1).drop_last() =~= vs.take(i));
    } else {
        assert(vs.take(i) =~= vs);
    }
}

/// Reading `n` values never takes more bytes than there are.
pub proof fn lemma_decode_all_len<T: MCDecode>(s: Seq<u8>, n: nat)
    ensures
        decode_all::<T>(s, n).1 <= s.len(),
    decreases n,
{
    if n > 0 {
        lemma_decode_all_len::<T>(s, (n - 1) as nat);
        let c = decode_all::<T>(s, (n - 1) as nat).1;
        T::lemma_decode_len(s.skip(c as int));
    }
}

/// Writing values that all survive a round trip and reading them back gives
/// them, and takes exactly the bytes written.
pub proof fn lemma_all_roundtrip<T: MCCodec>(vs: Seq<<T as View>::V>, rest: Seq<u8>)
    requires
        forall|i: int| 0 <= i < vs.len() ==> T::spec_roundtrips(#[trigger] vs[i]),
    ensures
        encode_all::<T>(vs).0 is Ok,
        decode_all::<T>(encode_all::<T>(vs).1 + rest, vs.len()) == (Ok::<Seq<<T as View>::V>, PacketError>(vs), encode_all::<T>(vs).1.len()),
    decreases vs.len(),
{
    if vs.len() > 0 {
        let init = vs.drop_last();
        let b = encode_all::<T>(init).1;
        assert forall|i: int| 0 <= i < init.len() implies T::spec_roundtrips(#[trigger] init[i]) by {
            assert(init[i] == vs[i]);
        }
        T::lemma_roundtrip(vs.last(), rest);
        let b2 = T::spec_encode(vs.last()).1;
        lemma_all_roundtrip::<T>(init, b2 + rest);
        assert(encode_all::<T>(vs) == (T::spec_encode(vs.last()).0, b + b2));
        let big = b + b2 + rest;
        assert(big =~= b + (b2 + rest));
        assert(big.skip(b.len() as int) =~= b2 + rest);
        assert(init.len() == (vs.len() - 1) as nat);
        assert(decode_all::<T>(big, init.len()) == (Ok::<Seq<<T as View>::V>, PacketError>(init), b.len()));
        assert(T::spec_decode(big.skip(b.len() as int)) == (Ok::<<T as View>::V, PacketError>(vs.last()), b2.len()));
        assert(init.push(vs.last()) =~= vs);
        assert(decode_all::<T>(big, vs.len()) == (Ok::<Seq<<T as View>::V>, PacketError>(init.push(vs.last())), b.len() + b2.len()));
    } else {
        assert(vs =~= Seq::<<T as View>::V>::empty());
    }
}

/// Writing an array of values that survive a round trip, with a count that
/// fits a VarInt, and reading it back gives the values, taking exactly the
/// bytes written.
pub proof fn lemma_array_roundtrip<T: MCCodec>(vs: Seq<<T as View>::V>, rest: Seq<u8>)
    requires
        vs.len() <= i32::MAX,
        forall|i: int| 0 <= i < vs.len() ==> T::spec_roundtrips(#[trigger] vs[i]),
    ensures
        array_encode::<T>(vs).0 is Ok,
        array_decode::<T>(array_encode::<T>(vs).1 + rest) == (Ok::<Seq<<T as View>::V>, PacketError>(vs), array_encode::<T>(vs).1.len()),
{
    let b = encode_all::<T>(vs).1;
    lemma_all_roundtrip::<T>(vs, rest);
    lemma_varint_roundtrip(vs.len() as i32, b + rest);
    let all = array_encode::<T>(vs).1 + rest;
    assert(all =~= varint_bytes(vs.len() as i32) + (b + rest));
    assert(all.skip(varint_bytes(vs.len() as i32).len() as int) =~= b + rest);
}

/// A growable buffer of packet bytes. Writes append at the end; reads take
/// from the front.
#[derive(Debug)]
pub struct PacketBytes {
    data: BytesMut,
}

impl View for PacketBytes {
    type V = Seq<u8>;

    closed spec fn view(&self) -> Seq<u8> {
        bytes_mut_content(self.data)
    }
}

impl PacketBytes {
    pub fn new() -> (r: Self)
        ensures
            r@ == Seq::<u8>::empty(),
    {
        Self { data: bm_new() }
    }

    /// A buffer over the bytes of `data`.
    pub(crate) fn wrap(data: BytesMut) -> (r: Self)
        ensures
            r@ == bytes_mut_content(data),
    {
        Self { data }
    }

    /// The underlying bytes.
    pub(crate) fn into_inner(self) -> (r: BytesMut)
        ensures
            bytes_mut_content(r) == self@,
    {
        self.data
    }

    /// A buffer holding a copy of `src`.
    pub fn from_slice(src: &[u8]) -> (r: Self)
        ensures
            r@ == src@,
    {
        Self { data: bm_from_slice(src) }
    }

    pub fn len(&self) -> (r: usize)
        ensures
            r == self@.len(),
    {
        bm_len(&self.data)
    }

    pub fn is_empty(&self) -> (r: bool)
        ensures
            r == (self@.len() == 0),
    {
        bm_len(&self.data) == 0
    }

    /// The bytes, as a slice.
    pub fn as_slice(&self) -> (r: &[u8])
        ensures
            r@ == self@,
    {
        bm_as_slice(&self.data)
    }

    /// A copy of the bytes.
    pub fn to_vec(&self) -> (r: Vec<u8>)
        ensures
            r@ == self@,
    {
        bm_to_vec(&self.data)
    }

    /// The byte at `i`.
    pub fn byte_at(&self, i: usize) -> (r: u8)
        requires
            i < self@.len(),
        ensures
            r == self@[i as int],
    {
        bm_byte(&self.data, i)
    }

    pub fn extend_from_slice(&mut self, extend: &[u8])
        requires
            old(self)@.len() + extend@.len() <= max_buffer_len(),
        ensures
            final(self)@ == old(self)@ + extend@,
    {
        bm_extend_from_slice(&mut self.data, extend)
    }

    /// Takes all the bytes, leaving this buffer empty.
    pub fn split(&mut self) -> (r: Self)
        ensures
            r@ == old(self)@,
            final(self)@ == Seq::<u8>::empty(),
    {
        Self { data: bm_split(&mut self.data) }
    }

    /// Takes the first `at` bytes.
    pub fn split_to(&mut self, at: usize) -> (r: Self)
        requires
            at <= old(self)@.len(),
        ensures
            r@ == old(self)@.take(at as int),
            final(self)@ == old(self)@.skip(at as int),
    {
        Self { data: bm_split_to(&mut self.data, at) }
    }

    /// Drops the first `cnt` bytes.
    pub fn advance(&mut self, cnt: usize)
        requires
            cnt <= old(self)@.len(),
        ensures
            final(self)@ == old(self)@.skip(cnt as int),
    {
        bm_advance(&mut self.data, cnt)
    }

    pub fn freeze(self) -> (r: Bytes)
        ensures
            bytes_content(r) == self@,
    {
        bm_freeze(self.data)
    }

    pub fn put_u8(&mut self, value: u8) -> (r: Result<(), PacketError>)
        requires
            old(self)@.len() + 1 <= max_buffer_len(),
        ensures
            r is Ok,
            final(self)@ == old(self)@ + be_bytes(value as int, 1),
    {
        bm_put_u8(&mut self.data, value);
        Ok(())
    }

    pub fn get_u8(&mut self) -> (r: Result<u8, PacketError>)
        ensures
            old(self)@.len() >= 1 ==> r == Ok::<u8, PacketError>(be_value(old(self)@.take(1)) as u8) && final(self)@
                == old(self)@.skip(1),
            old(self)@.len() < 1 ==> r == Err::<u8, PacketError>(PacketError::Eof) && final(self)@ == old(self)@,
    {
        match bm_try_get_u8(&mut self.data) {
            Ok(v) => Ok(v),
            Err(_) => Err(PacketError::Eof),
        }
    }

    pub fn put_u16(&mut self, value: u16) -> (r: Result<(), PacketError>)
        requires
            old(self)@.len() + 2 <= max_buffer_len(),
        ensures
            r is Ok,
            final(self)@ == old(self)@ + be_bytes(value as int, 2),
    {
        bm_put_u16(&mut self.data, value);
        Ok(())
    }

    pub fn get_u16(&mut self) -> (r: Result<u16, PacketError>)
        ensures
            old(self)@.len() >= 2 ==> r == Ok::<u16, PacketError>(be_value(old(self)@.take(2)) as u16) && final(self)@
                == old(self)@.skip(2),
            old(self)@.len() < 2 ==> r == Err::<u16, PacketError>(PacketError::Eof) && final(self)@ == old(self)@,
    {
        match bm_try_get_u16(&mut self.data) {
            Ok(v) => Ok(v),
            Err(_) => Err(PacketError::Eof),
        }
    }

    pub fn put_u32(&mut self, value: u32) -> (r: Result<(), PacketError>)
        requires
            old(self)@.len() + 4 <= max_buffer_len(),
        ensures
            r is Ok,
            final(self)@ == old(self)@ + be_bytes(value as int, 4),
    {
        bm_put_u32(&mut self.data, value);
        Ok(())
    }

    pub fn get_u32(&mut self) -> (r: Result<u32, PacketError>)
        ensures
            old(self)@.len() >= 4 ==> r == Ok::<u32, PacketError>(be_value(old(self)@.take(4)) as u32) && final(self)@
                == old(self)@.skip(4),
            old(self)@.len() < 4 ==> r == Err::<u32, PacketError>(PacketError::Eof) && final(self)@ == old(self)@,
    {
        match bm_try_get_u32(&mut self.data) {
            Ok(v) => Ok(v),
            Err(_) => Err(PacketError::Eof),
        }
    }

    pub fn put_u64(&mut self, value: u64) -> (r: Result<(), PacketError>)
        requires
            old(self)@.len() + 8 <= max_buffer_len(),
        ensures
            r is Ok,
            final(self)@ == old(self)@ + be_bytes(value as int, 8),
    {
        bm_put_u64(&mut self.data, value);
        Ok(())
    }

    pub fn get_u64(&mut self) -> (r: Result<u64, PacketError>)
        ensures
            old(self)@.len() >= 8 ==> r == Ok::<u64, PacketError>(be_value(old(self)@.take(8)) as u64) && final(self)@
                == old(self)@.skip(8),
            old(self)@.len() < 8 ==> r == Err::<u64, PacketError>(PacketError::Eof) && final(self)@ == old(self)@,
    {
        match bm_try_get_u64(&mut self.data) {
            Ok(v) => Ok(v),
            Err(_) => Err(PacketError::Eof),
        }
    }

    pub fn put_i8(&mut self, value: i8) -> (r: Result<(), PacketError>)
        requires
            old(self)@.len() + 1 <= max_buffer_len(),
        ensures
            r is Ok,
            final(self)@ == old(self)@ + be_bytes(value as u8 as int, 1),
    {
        bm_put_i8(&mut self.data, value);
        Ok(())
    }

    pub fn get_i8(&mut self) -> (r: Result<i8, PacketError>)
        ensures
            old(self)@.len() >= 1 ==> r == Ok::<i8, PacketError>(be_value(old(self)@.take(1)) as u8 as i8) && final(self)@
                == old(self)@.skip(1),
            old(self)@.len() < 1 ==> r == Err::<i8, PacketError>(PacketError::Eof) && final(self)@ == old(self)@,
    {
        match bm_try_get_i8(&mut self.data) {
            Ok(v) => Ok(v),
            Err(_) => Err(PacketError::Eof),
        }
    }

    pub fn put_i16(&mut self, value: i16) -> (r: Result<(), PacketError>)
        requires
            old(self)@.len() + 2 <= max_buffer_len(),
        ensures
            r is Ok,
            final(self)@ == old(self)@ + be_bytes(value as u16 as int, 2),
    {
        bm_put_i16(&mut self.data, value);
        Ok(())
    }

    pub fn get_i16(&mut self) -> (r: Result<i16, PacketError>)
        ensures
            old(self)@.len() >= 2 ==> r == Ok::<i16, PacketError>(be_value(old(self)@.take(2)) as u16 as i16) && final(self)@
                == old(self)@.skip(2),
            old(self)@.len() < 2 ==> r == Err::<i16, PacketError>(PacketError::Eof) && final(self)@ == old(self)@,
    {
        match bm_try_get_i16(&mut self.data) {
            Ok(v) => Ok(v),
            Err(_) => Err(PacketError::Eof),
        }
    }

    pub fn put_i32(&mut self, value: i32) -> (r: Result<(), PacketError>)
        requires
            old(self)@.len() + 4 <= max_buffer_len(),
        ensures
            r is Ok,
            final(self)@ == old(self)@ + be_bytes(value as u32 as int, 4),
    {
        bm_put_i32(&mut self.data, value);
        Ok(())
    }

    pub fn get_i32(&mut self) -> (r: Result<i32, PacketError>)
        ensures
            old(self)@.len() >= 4 ==> r == Ok::<i32, PacketError>(be_value(old(self)@.take(4)) as u32 as i32) && final(self)@
                == old(self)@.skip(4),
            old(self)@.len() < 4 ==> r == Err::<i32, PacketError>(PacketError::Eof) && final(self)@ == old(self)@,
    {
        match bm_try_get_i32(&mut self.data) {
            Ok(v) => Ok(v),
            Err(_) => Err(PacketError::Eof),
        }
    }

    pub fn put_i64(&mut self, value: i64) -> (r: Result<(), PacketError>)
        requires
            old(self)@.len() + 8 <= max_buffer_len(),
        ensures
            r is Ok,
            final(self)@ == old(self)@ + be_bytes(value as u64 as int, 8),
    {
        bm_put_i64(&mut self.data, value);
        Ok(())
    }

    pub fn get_i64(&mut self) -> (r: Result<i64, PacketError>)
        ensures
            old(self)@.len() >= 8 ==> r == Ok::<i64, PacketError>(be_value(old(self)@.take(8)) as u64 as i64) && final(self)@
                == old(self)@.skip(8),
            old(self)@.len() < 8 ==> r == Err::<i64, PacketError>(PacketError::Eof) && final(self)@ == old(self)@,
    {
        match bm_try_get_i64(&mut self.data) {
            Ok(v) => Ok(v),
            Err(_) => Err(PacketError::Eof),
        }
    }

    pub fn put_bool(&mut self, value: bool) -> (r: Result<(), PacketError>)
        requires
            old(self)@.len() + 1 <= max_buffer_len(),
        ensures
            r is Ok,
            final(self)@ == old(self)@.push(if value { 1u8 } else { 0u8 }),
    {
        let b: u8 = if value { 1 } else { 0 };
        let r = self.put_u8(b);
        proof {
            reveal_with_fuel(be_bytes, 2);
            assert(be_bytes(b as int, 1) =~= seq![b]);
        }
        r
    }

    /// Reads a byte; it is `true` when the byte is 1.
    pub fn get_bool(&mut self) -> (r: Result<bool, PacketError>)
        ensures
            old(self)@.len() >= 1 ==> r == Ok::<bool, PacketError>(old(self)@[0] == 1)
                && final(self)@ == old(self)@.skip(1),
            old(self)@.len() < 1 ==> r == Err::<bool, PacketError>(PacketError::Eof) && final(self)@ == old(self)@,
    {
        let ghost s = self@;
        let b = self.get_u8()?;
        proof {
            reveal_with_fuel(be_value, 2);
            assert(s.take(1).drop_last() =~= Seq::<u8>::empty());
        }
        Ok(b == 1)
    }

    pub fn put_var_int(&mut self, value: i32) -> (r: Result<(), PacketError>)
        requires
            old(self)@.len() + varint_bytes(value).len() <= max_buffer_len(),
        ensures
            r is Ok,
            final(self)@ == old(self)@ + varint_bytes(value),
    {
        write_var_int(&mut self.data, value);
        Ok(())
    }

    pub fn get_var_int(&mut self) -> (r: Result<i32, PacketError>)
        ensures
            r == varint_value(old(self)@),
            r is Ok ==> final(self)@ == old(self)@.skip(varint_decode(old(self)@).unwrap().1 as int),
            r is Err ==> final(self)@ == old(self)@,
    {
        read_var_int(&mut self.data)
    }

    /// Writes the 128 bits of a UUID, high half first.
    pub fn put_uuid(&mut self, uuid: u128) -> (r: Result<(), PacketError>)
        requires
            old(self)@.len() + 16 <= max_buffer_len(),
        ensures
            r is Ok,
            final(self)@ == old(self)@ + uuid_bytes(uuid),
    {
        let msb = (uuid >> 64) as u64;
        let lsb = (uuid & 0xffff_ffff_ffff_ffff) as u64;
        assert(msb == uuid as int / 0x1_0000_0000_0000_0000 && lsb == uuid as int
            % 0x1_0000_0000_0000_0000) by (bit_vector)
            requires
                msb == (uuid >> 64) as u64,
                lsb == (uuid & 0xffff_ffff_ffff_ffff) as u64,
        ;
        self.put_u64(msb)?;
        proof {
            crate::proto::bytes_buf::lemma_be_bytes_len(msb as int, 8);
        }
        self.put_u64(lsb)?;
        proof {
            reveal_with_fuel(vstd::arithmetic::power::pow, 9);
            crate::proto::bytes_buf::lemma_be_split(uuid as int, 8, 8);
        }
        Ok(())
    }

    /// Reads the 128 bits of a UUID, high half first.
    pub fn get_uuid(&mut self) -> (r: Result<u128, PacketError>)
        ensures
            r == uuid_decode(old(self)@).0,
            final(self)@ == old(self)@.skip(uuid_decode(old(self)@).1 as int),
    {
        let ghost s = self@;
        proof {
            reveal_with_fuel(vstd::arithmetic::power::pow, 9);
        }
        let msb = match self.get_u64() {
            Ok(v) => v,
            Err(e) => {
                return Err(e);
            },
        };
        let lsb = match self.get_u64() {
            Ok(v) => v,
            Err(e) => {
                assert(s.skip(8) == self@);
                return Err(e);
            },
        };
        let r = uuid_bits_from_pair(msb, lsb);
        proof {
            crate::proto::bytes_buf::lemma_be_value_concat(s.take(8), s.skip(8).take(8));
            assert(s.take(8) + s.skip(8).take(8) =~= s.take(16));
            assert(s.skip(8).skip(8) =~= s.skip(16));
            crate::proto::bytes_buf::lemma_be_value_bound(s.take(8));
            crate::proto::bytes_buf::lemma_be_value_bound(s.skip(8).take(8));
            crate::proto::bytes_buf::lemma_be_value_bound(s.take(16));
            assert(s.take(8).len() == 8);
            assert(s.skip(8).take(8).len() == 8);
        }
        Ok(r)
    }

    /// Writes `s` with its length in front.
    pub fn put_string(&mut self, s: String) -> (r: Result<(), PacketError>)
        requires
            old(self)@.len() + string_bytes(s@).len() <= max_buffer_len(),
        ensures
            r is Ok,
            final(self)@ == old(self)@ + string_bytes(s@),
    {
        let bytes = s.as_str().as_bytes();
        proof {
            lemma_varint_bytes_len(bytes@.len() as i32);
        }
        self.put_var_int(bytes.len() as i32)?;
        self.extend_from_slice(bytes);
        Ok(())
    }

    /// Reads a string that has its length in front.
    pub fn get_string(&mut self) -> (r: Result<String, PacketError>)
        ensures
            match r {
                Ok(v) => string_decode(old(self)@).0 == Ok::<Seq<char>, PacketError>(v@),
                Err(e) => string_decode(old(self)@).0 == Err::<Seq<char>, PacketError>(e),
            },
            final(self)@ == old(self)@.skip(string_decode(old(self)@).1 as int),
    {
        let ghost s = self@;
        let len = self.get_var_int()?;
        let ghost k = varint_decode(s).unwrap().1;
        proof {
            crate::proto::varint::lemma_varint_decode_len(s);
        }
        if self.len() < len as usize {
            return Err(PacketError::StringTruncated);
        }
        let bytes = self.split_to(len as usize);
        assert(s.skip(k as int).skip(len as usize as int) =~= s.skip(k + len as usize));
        match string_from_utf8(bytes.to_vec()) {
            Some(s) => Ok(s),
            None => Err(PacketError::InvalidUtf8),
        }
    }

    pub fn put_str(&mut self, s: &str) -> (r: Result<(), PacketError>)
        requires
            old(self)@.len() + string_bytes(s@).len() <= max_buffer_len(),
        ensures
            r is Ok,
            final(self)@ == old(self)@ + string_bytes(s@),
    {
        let bytes = s.as_bytes();
        proof {
            lemma_varint_bytes_len(bytes@.len() as i32);
        }
        self.put_var_int(bytes.len() as i32)?;
        self.extend_from_slice(bytes);
        Ok(())
    }

    pub fn get_str(&mut self) -> (r: Result<String, PacketError>)
        ensures
            match r {
                Ok(v) => string_decode(old(self)@).0 == Ok::<Seq<char>, PacketError>(v@),
                Err(e) => string_decode(old(self)@).0 == Err::<Seq<char>, PacketError>(e),
            },
            final(self)@ == old(self)@.skip(string_decode(old(self)@).1 as int),
    {
        self.get_string()
    }

    /// Writes the array's length as a VarInt, then each value in turn; it
    /// stops at the first value that fails to write.
    pub fn put_array<T: MCEncode>(&mut self, arr: Vec<T>) -> (r: Result<(), PacketError>)
        requires
            old(self)@.len() + array_encode::<T>(arr@.map_values(|x: T| x@)).1.len()
                <= max_buffer_len(),
        ensures
            same_outcome(r, array_encode::<T>(arr@.map_values(|x: T| x@)).0),
            final(self)@ == old(self)@ + array_encode::<T>(arr@.map_values(|x: T| x@)).1,
    {
        let ghost vs = arr@.map_values(|x: T| x@);
        let ghost start = self@;
        proof {
            lemma_varint_bytes_len(arr.len() as i32);
        }
        self.put_var_int(arr.len() as i32)?;
        let ghost base = self@;
        let mut i: usize = 0;
        assert(vs.take(0) =~= Seq::<T::V>::empty());
        while i < arr.len()
            invariant
                i <= arr.len(),
                vs == arr@.map_values(|x: T| x@),
                start == old(self)@,
                base == start + varint_bytes(arr.len() as i32),
                base.len() + encode_all::<T>(vs).1.len() <= max_buffer_len(),
                encode_all::<T>(vs.take(i as int)).0 is Ok,
                self@ == base + encode_all::<T>(vs.take(i as int)).1,
            decreases arr.len() - i,
        {
            let ghost prev = vs.take(i as int);
            let ghost next = vs.take(i + 1);
            proof {
                assert(next.drop_last() =~= prev);
                assert(next.last() == arr@[i as int]@);
                assert(encode_all::<T>(next) == (T::spec_encode(arr@[i as int]@).0, encode_all::<T>(prev).1 + T::spec_encode(arr@[i as int]@).1));
                lemma_encode_all_grows::<T>(vs, i + 1);
            }
            let r = arr[i].encode(self);
            match r {
                Ok(()) => {},
                Err(e) => {
                    proof {
                        lemma_encode_all_err_stays::<T>(vs, i + 1);
                        assert(self@ == base + encode_all::<T>(next).1);
                        assert(base + encode_all::<T>(next).1 =~= start + (varint_bytes(arr.len() as i32) + encode_all::<T>(next).1));
                        assert(encode_all::<T>(vs) == encode_all::<T>(next));
                        assert(array_encode::<T>(vs).1 == varint_bytes(arr.len() as i32) + encode_all::<T>(next).1);
                        assert(self@ == start + array_encode::<T>(vs).1);
                    }
                    return Err(e);
                },
            }
            i += 1;
        }
        assert(vs.take(arr.len() as int) =~= vs);
        Ok(())
    }

    /// Reads a VarInt count, then that many values; it stops at the first
    /// value that fails to read. A negative count would make the allocation
    /// for the values panic, so `requires` rules it out.
    pub fn get_array<T: MCDecode>(&mut self) -> (r: Result<Vec<T>, PacketError>)
        requires
            varint_value(old(self)@) matches Ok(n) ==> n >= 0,
        ensures
            match r {
                Ok(v) => array_decode::<T>(old(self)@).0 == Ok::<Seq<T::V>, PacketError>(
                    v@.map_values(|x: T| x@),
                ),
                Err(e) => array_decode::<T>(old(self)@).0 == Err::<Seq<T::V>, PacketError>(e),
            },
            final(self)@ == old(self)@.skip(array_decode::<T>(old(self)@).1 as int),
    {
        let ghost s = self@;
        let len = self.get_var_int()?;
        let ghost k = varint_decode(s).unwrap().1;
        let ghost rest = s.skip(k as int);
        proof {
            crate::proto::varint::lemma_varint_decode_len(s);
        }
        let mut arr: Vec<T> = Vec::with_capacity(len as usize);
        assert(arr@.map_values(|x: T| x@) =~= Seq::<T::V>::empty());
        let mut i: i32 = 0;
        while i < len
            invariant
                0 <= i <= len,
                s == old(self)@,
                k <= s.len(),
                rest == s.skip(k as int),
                array_decode::<T>(s) == ({
                    let (r, c) = decode_all::<T>(rest, len as nat);
                    (r, k + c)
                }),
                decode_all::<T>(rest, i as nat).0 == Ok::<Seq<T::V>, PacketError>(
                    arr@.map_values(|x: T| x@),
                ),
                self@ == rest.skip(decode_all::<T>(rest, i as nat).1 as int),
            decreases len - i,
        {
            let ghost c = decode_all::<T>(rest, i as nat).1;
            proof {
                lemma_decode_all_len::<T>(rest, i as nat);
                T::lemma_decode_len(rest.skip(c as int));
                let c2 = T::spec_decode(rest.skip(c as int)).1;
                assert(rest.skip(c as int).skip(c2 as int) =~= rest.skip((c + c2) as int));
            }
            let ghost before = arr@.map_values(|x: T| x@);
            let ghost cur = self@;
            assert(cur == rest.skip(c as int));
            match T::decode(self) {
                Ok(v) => {
                    arr.push(v);
                    assert(arr@.map_values(|x: T| x@) =~= before.push(v@));
                },
                Err(e) => {
                    proof {
                        assert(T::spec_decode(cur).0 == Err::<T::V, PacketError>(e));
                        assert(decode_all::<T>(rest, (i + 1) as nat) == (Err::<Seq<T::V>, PacketError>(e), c + T::spec_decode(cur).1));
                        lemma_decode_all_stops::<T>(rest, (i + 1) as nat, len as nat);
                        assert(s.skip(k as int).skip((decode_all::<T>(rest, (i + 1) as nat).1) as int)
                            =~= s.skip((k + decode_all::<T>(rest, (i + 1) as nat).1) as int));
                    }
                    return Err(e);
                },
            }
            i += 1;
        }
        proof {
            lemma_decode_all_len::<T>(rest, len as nat);
            assert(rest.skip(decode_all::<T>(rest, len as nat).1 as int) =~= s.skip(
                (k + decode_all::<T>(rest, len as nat).1) as int,
            ));
        }
        Ok(arr)
    }

    /// Writes an enum value: the same as writing the value.
    pub fn put_enum<T: MCEncode>(&mut self, enm: T) -> (r: Result<(), PacketError>)
        requires
            old(self)@.len() + T::spec_encode(enm@).1.len() <= max_buffer_len(),
        ensures
            same_outcome(r, T::spec_encode(enm@).0),
            final(self)@ == old(self)@ + T::spec_encode(enm@).1,
    {
        enm.encode(self)
    }

    /// Reads an enum value: the same as reading the value.
    pub fn get_enum<T: MCDecode>(&mut self) -> (r: Result<T, PacketError>)
        ensures
            match r {
                Ok(v) => T::spec_decode(old(self)@).0 == Ok::<T::V, PacketError>(v@),
                Err(e) => T::spec_decode(old(self)@).0 == Err::<T::V, PacketError>(e),
            },
            final(self)@ == old(self)@.skip(T::spec_decode(old(self)@).1 as int),
    {
        T::decode(self)
    }

    /// Writes a game profile.
    pub fn put_game_profile(&mut self, gp: GameProfile) -> (r: Result<(), PacketError>)
        requires
            old(self)@.len() + GameProfile::spec_encode(gp@).1.len() <= max_buffer_len(),
        ensures
            same_outcome(r, GameProfile::spec_encode(gp@).0),
            final(self)@ == old(self)@ + GameProfile::spec_encode(gp@).1,
    {
        gp.encode(self)
    }

    /// Reads a game profile; its properties are left unread.
    pub fn get_game_profile(&mut self) -> (r: Result<GameProfile, PacketError>)
        ensures
            match r {
                Ok(v) => GameProfile::spec_decode(old(self)@).0 == Ok::<(u128, Seq<char>), PacketError>(v@),
                Err(e) => GameProfile::spec_decode(old(self)@).0 == Err::<(u128, Seq<char>), PacketError>(e),
            },
            final(self)@ == old(self)@.skip(GameProfile::spec_decode(old(self)@).1 as int),
    {
        GameProfile::decode(self)
    }

    /// Appends the bytes of a byte array, each read as unsigned.
    pub fn put_byte_array(&mut self, ba: Vec<i8>) -> (r: Result<(), PacketError>)
        requires
            old(self)@.len() + ba@.len() <= max_buffer_len(),
        ensures
            r is Ok,
            final(self)@ == old(self)@ + ba@.map_values(|x: i8| x as u8),
    {
        let mut bytes: Vec<u8> = Vec::new();
        let mut i: usize = 0;
        while i < ba.len()
            invariant
                i <= ba.len(),
                bytes@ == ba@.take(i as int).map_values(|x: i8| x as u8),
            decreases ba.len() - i,
        {
            bytes.push(ba[i] as u8);
            i += 1;
            assert(ba@.take(i as int).map_values(|x: i8| x as u8) =~= ba@.take(i - 1).map_values(
                |x: i8| x as u8,
            ).push(ba@[i - 1] as u8));
        }
        assert(ba@.take(ba.len() as int) =~= ba@);
        self.extend_from_slice(bytes.as_slice());
        Ok(())
    }

    /// All the bytes, each read as signed; the buffer keeps them.
    pub fn get_byte_array(&mut self) -> (r: Result<Vec<i8>, PacketError>)
        ensures
            r matches Ok(v) && v@ == old(self)@.map_values(|x: u8| x as i8),
            final(self)@ == old(self)@,
    {
        let n = self.len();
        let mut out: Vec<i8> = Vec::new();
        let mut i: usize = 0;
        while i < n
            invariant
                i <= n,
                n == self@.len(),
                out@ == self@.take(i as int).map_values(|x: u8| x as i8),
            decreases n - i,
        {
            out.push(self.byte_at(i) as i8);
            i += 1;
            assert(self@.take(i as int).map_values(|x: u8| x as i8) =~= self@.take(i - 1).map_values(
                |x: u8| x as i8,
            ).push(self@[i - 1] as i8));
        }
        assert(self@.take(n as int) =~= self@);
        Ok(out)
    }

    /// Appends the bytes as they are, with no length in front.
    pub fn put_remaining_array(&mut self, arr: Vec<u8>) -> (r: Result<(), PacketError>)
        requires
            old(self)@.len() + arr@.len() <= max_buffer_len(),
        ensures
            r is Ok,
            final(self)@ == old(self)@ + arr@,
    {
        self.extend_from_slice(arr.as_slice());
        Ok(())
    }

    /// Takes all the bytes that are left.
    pub fn get_remaining_array(&mut self) -> (r: Result<Vec<u8>, PacketError>)
        ensures
            r matches Ok(v) && v@ == old(self)@,
            final(self)@ == Seq::<u8>::empty(),
    {
        let all = self.split();
        Ok(all.to_vec())
    }

    /// Appends the bytes of another buffer.
    pub fn put_packet_bytes(&mut self, pb: PacketBytes) -> (r: Result<(), PacketError>)
        requires
            old(self)@.len() + pb@.len() <= max_buffer_len(),
        ensures
            r is Ok,
            final(self)@ == old(self)@ + pb@,
    {
        self.extend_from_slice(pb.as_slice());
        Ok(())
    }

    /// Takes all the bytes that are left, as a buffer of their own.
    pub fn get_packet_bytes(&mut self) -> (r: Result<PacketBytes, PacketError>)
        ensures
            r matches Ok(v) && v@ == old(self)@,
            final(self)@ == Seq::<u8>::empty(),
    {
        Ok(self.split())
    }
}

/// Once a value fails to write, the outcome of writing more values is that
/// failure.
pub proof fn lemma_encode_all_stops<T: MCEncode>(vs: Seq<T::V>, i: int)
    requires
        0 < i <= vs.len(),
        T::spec_encode(vs[i - 1]).0 is Err,
        encode_all::<T>(vs.take(i - 1)).0 is Ok,
    ensures
        encode_all::<T>(vs) == encode_all::<T>(vs.take(i)),
        encode_all::<T>(vs).0 == T::spec_encode(vs[i - 1]).0,
        encode_all::<T>(vs.take(i)).1 == encode_all::<T>(vs.take(i - 1)).1 + T::spec_encode(vs[i - 1]).1,
    decreases vs.len() - i,
{
    assert(vs.take(i).drop_last() =~= vs.take(i - 1));
    assert(vs.take(i).last() == vs[i - 1]);
    lemma_encode_all_err_stays::<T>(vs, i);
}

proof fn lemma_encode_all_err_stays<T: MCEncode>(vs: Seq<T::V>, i: int)
    requires
        0 <= i <= vs.len(),
        encode_all::<T>(vs.take(i)).0 is Err,
    ensures
        encode_all::<T>(vs) == encode_all::<T>(vs.take(i)),
    decreases vs.len() - i,
{
    if i < vs.len() {
        assert(vs.take(i + 1).drop_last() =~= vs.take(i));
        lemma_encode_all_err_stays::<T>(vs, i + 1);
    } else {
        assert(vs.take(i) =~= vs);
    }
}

/// Once a value fails to read, the outcome of reading more values is that
/// failure, with the same bytes taken.
pub proof fn lemma_decode_all_stops<T: MCDecode>(s: Seq<u8>, i: nat, n: nat)
    requires
        0 < i <= n,
        decode_all::<T>(s, i) .0 is Err,
    ensures
        decode_all::<T>(s, n) == decode_all::<T>(s, i),
    decreases n - i,
{
    if i < n {
        lemma_decode_all_stops::<T>(s, i, (n - 1) as nat);
    }
}

impl Default for PacketBytes {
    fn default() -> (r: Self)
        ensures
            r@ == Seq::<u8>::empty(),
    {
        Self::new()
    }
}

} // verus!
