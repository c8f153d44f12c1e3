use vstd::prelude::*;

verus! {

/// A block position packed into one 64-bit word: 26 bits of x, 26 bits of z
/// and 12 bits of y, from the most significant end.
#[derive(Clone, Copy, Debug)]
pub struct Position(pub i64);

pub type PositionX = i64;

pub type PositionY = i64;

pub type PositionZ = i64;

pub open spec fn pow2(bits: u64) -> u64 {
    (1u64 << bits) as u64
}

/// Reads an unsigned field of `bits` bits as a two's complement number.
pub open spec fn sign_extend(u: u64, bits: u64) -> int {
    if u >= pow2((bits - 1) as u64) {
        u - pow2(bits)
    } else {
        u as int
    }
}

/// The packed word, as an unsigned number, for the coordinates.
pub open spec fn packed_position(x: i64, y: i64, z: i64) -> u64 {
    ((x as u64 % 0x400_0000) * 0x40_0000_0000 + (z as u64 % 0x400_0000) * 0x1000 + (y as u64
        % 0x1000)) as u64
}

/// The coordinates that a packed word holds.
pub open spec fn unpacked_position(v: i64) -> (int, int, int) {
    let u = v as u64;
    (
        sign_extend(u / 0x40_0000_0000, 26),
        sign_extend(u % 0x1000, 12),
        sign_extend((u / 0x1000) % 0x400_0000, 26),
    )
}

/// Whether the coordinates fit the fields of a packed position.
pub open spec fn position_in_range(x: i64, y: i64, z: i64) -> bool {
    &&& -0x200_0000 <= x < 0x200_0000
    &&& -0x800 <= y < 0x800
    &&& -0x200_0000 <= z < 0x200_0000
}

/// Packing coordinates that fit the fields and unpacking the word gives the
/// coordinates back.
pub proof fn lemma_position_pack_unpack(x: i64, y: i64, z: i64)
    requires
        position_in_range(x, y, z),
    ensures
        unpacked_position(packed_position(x, y, z) as i64) == (x as int, y as int, z as int),
{
    let p = packed_position(x, y, z);
    assert(sign_extend((p as i64 as u64) / 0x40_0000_0000, 26) == x) by (bit_vector)
        requires
            p == ((x as u64 % 0x400_0000) * 0x40_0000_0000 + (z as u64 % 0x400_0000) * 0x1000 + (
            y as u64 % 0x1000)) as u64,
            -0x200_0000 <= x < 0x200_0000,
    ;
    assert(sign_extend((p as i64 as u64) % 0x1000, 12) == y) by (bit_vector)
        requires
            p == ((x as u64 % 0x400_0000) * 0x40_0000_0000 + (z as u64 % 0x400_0000) * 0x1000 + (
            y as u64 % 0x1000)) as u64,
            -0x800 <= y < 0x800,
    ;
    assert(sign_extend(((p as i64 as u64) / 0x1000) % 0x400_0000, 26) == z) by (bit_vector)
        requires
            p == ((x as u64 % 0x400_0000) * 0x40_0000_0000 + (z as u64 % 0x400_0000) * 0x1000 + (
            y as u64 % 0x1000)) as u64,
            -0x200_0000 <= z < 0x200_0000,
    ;
}

/// Every packed word is the packing of the coordinates it holds.
pub proof fn lemma_position_unpack_pack(v: i64)
    ensures
        ({
            let (x, y, z) = unpacked_position(v);
            &&& position_in_range(x as i64, y as i64, z as i64)
            &&& packed_position(x as i64, y as i64, z as i64) == v as u64
        }),
{
    let u = v as u64;
    let x = sign_extend(u / 0x40_0000_0000, 26) as i64;
    let y = sign_extend(u % 0x1000, 12) as i64;
    let z = sign_extend((u / 0x1000) % 0x400_0000, 26) as i64;
    assert(-0x200_0000 <= sign_extend(u / 0x40_0000_0000, 26) < 0x200_0000) by (bit_vector);
    assert(-0x800 <= sign_extend(u % 0x1000, 12) < 0x800) by (bit_vector);
    assert(-0x200_0000 <= sign_extend((u / 0x1000) % 0x400_0000, 26) < 0x200_0000) by (bit_vector);
    assert(((x as u64 % 0x400_0000) * 0x40_0000_0000 + (z as u64 % 0x400_0000) * 0x1000 + (y as u64
        % 0x1000)) as u64 == u) by (bit_vector)
        requires
            x == sign_extend(u / 0x40_0000_0000, 26) as i64,
            y == sign_extend(u % 0x1000, 12) as i64,
            z == sign_extend((u / 0x1000) % 0x400_0000, 26) as i64,
    ;
}

impl Position {
    pub fn encode_position(x: PositionX, y: PositionY, z: PositionZ) -> (r: i64)
        ensures
            r as u64 == packed_position(x, y, z),
    {
        let r = ((x & 0x03FF_FFFF) << 38) | ((z & 0x03FF_FFFF) << 12) | (y & 0xFFF);
        assert(r as u64 == ((x as u64 % 0x400_0000) * 0x40_0000_0000 + (z as u64 % 0x400_0000)
            * 0x1000 + (y as u64 % 0x1000)) as u64) by (bit_vector)
            requires
                r == ((x & 0x03FF_FFFF) << 38) | ((z & 0x03FF_FFFF) << 12) | (y & 0xFFF),
        ;
        r
    }

    pub fn decode_position(value: i64) -> (r: (PositionX, PositionY, PositionZ))
        ensures
            (r.0 as int, r.1 as int, r.2 as int) == unpacked_position(value),
    {
        let x = value >> 38;
        let y = value << 52 >> 52;
        let z = value << 26 >> 38;
        assert(x == sign_extend((value as u64) / 0x40_0000_0000, 26)) by (bit_vector)
            requires
                x == value >> 38,
        ;
        assert(y == sign_extend((value as u64) % 0x1000, 12)) by (bit_vector)
            requires
                y == value << 52 >> 52,
        ;
        assert(z == sign_extend(((value as u64) / 0x1000) % 0x400_0000, 26)) by (bit_vector)
            requires
                z == value << 26 >> 38,
        ;
        (x, y, z)
    }

    pub fn from_pos(x: PositionX, y: PositionY, z: PositionZ) -> (r: Self)
        ensures
            r.0 as u64 == packed_position(x, y, z),
    {
        Self(Self::encode_position(x, y, z))
    }

    pub fn decoded(&self) -> (r: (PositionX, PositionY, PositionZ))
        ensures
            (r.0 as int, r.1 as int, r.2 as int) == unpacked_position(self.0),
    {
        Self::decode_position(self.0)
    }
}

} // verus!

verus! {

impl View for Position {
    type V = i64;

    open spec fn view(&self) -> i64 {
        self.0
    }
}

impl crate::codecs::base::MCEncode for Position {
    open spec fn spec_encode(v: i64) -> (Result<(), crate::proto::error::PacketError>, Seq<u8>) {
        <i64 as crate::codecs::base::MCEncode>::spec_encode(v)
    }

    fn encode(&self, dst: &mut crate::proto::packet_bytes::PacketBytes) -> (r: Result<
        (),
        crate::proto::error::PacketError,
    >) {
        proof {
            crate::proto::bytes_buf::lemma_be_bytes_len(self.0 as u64 as int, 8);
        }
        dst.put_i64(self.0)?;
        Ok(())
    }
}

impl crate::codecs::base::MCDecode for Position {
    open spec fn spec_decode(s: Seq<u8>) -> (Result<i64, crate::proto::error::PacketError>, nat) {
        <i64 as crate::codecs::base::MCDecode>::spec_decode(s)
    }

    proof fn lemma_decode_len(s: Seq<u8>) {
    }

    fn decode(src: &mut crate::proto::packet_bytes::PacketBytes) -> (r: Result<
        Self,
        crate::proto::error::PacketError,
    >) {
        match src.get_i64() {
            Ok(v) => Ok(Position(v)),
            Err(e) => Err(e),
        }
    }
}

impl crate::codecs::base::MCCodec for Position {
    open spec fn spec_roundtrips(v: i64) -> bool {
        true
    }

    proof fn lemma_roundtrip(v: i64, rest: Seq<u8>) {
        <i64 as crate::codecs::base::MCCodec>::lemma_roundtrip(v, rest);
    }
}

} // verus!
