//! The integer part of reading a low-precision vector: the quantized
//! components and the scale that the bytes pack, before any of them is
//! turned into a floating-point number.
use vstd::prelude::*;

use crate::proto::bytes_buf::be_value;
use crate::proto::error::PacketError;
use crate::proto::packet_bytes::PacketBytes;
use crate::proto::varint::{varint_decode, varint_value};

verus! {

/// What the bytes of a low-precision vector say: the zero vector, or three
/// 15-bit quantized components and a scale.
#[derive(PartialEq, Eq, Structural, Debug, Clone, Copy)]
pub enum LpVec3Bits {
    Zero,
    Scaled { scale: i64, qx: i64, qy: i64, qz: i64 },
}

/// The components and scale packed in `packed`, with the scale's high bits
/// `tail` when the header says the scale is extended.
pub open spec fn lpvec3_unpack(packed: i64, tail: i64) -> LpVec3Bits {
    let header = packed & 7;
    let scale = if header & 4 != 0 {
        (tail << 2) | (header & 3)
    } else {
        header & 3
    };
    if scale == 0 && header & 4 == 0 {
        LpVec3Bits::Zero
    } else {
        LpVec3Bits::Scaled {
            scale,
            qx: (packed >> 3) & 0x7FFF,
            qy: (packed >> 18) & 0x7FFF,
            qz: (packed >> 33) & 0x7FFF,
        }
    }
}

/// The 48-bit word that the first byte `a`, the second byte `b` and the
/// 32-bit word `c` make, `a` lowest and `c` highest.
pub open spec fn lpvec3_packed(a: u8, b: u8, c: u32) -> i64 {
    ((c as i64) << 16) | ((b as i64) << 8) | (a as i64)
}

/// What reading a low-precision vector from the front of `s` gives, and how
/// many bytes it takes. A first byte of zero is the zero vector, one byte
/// long. Otherwise a second byte and a big-endian 32-bit word follow, which
/// together with the first byte make the packed word; a VarInt of the
/// scale's high bits follows when the header says the scale is extended.
pub open spec fn lpvec3_decode(s: Seq<u8>) -> (Result<LpVec3Bits, PacketError>, nat) {
    if s.len() < 1 {
        (Err(PacketError::Eof), 0)
    } else if s[0] == 0 {
        (Ok(LpVec3Bits::Zero), 1)
    } else if s.len() < 2 {
        (Err(PacketError::Eof), 1)
    } else if s.len() < 6 {
        (Err(PacketError::Eof), 2)
    } else {
        let packed = lpvec3_packed(s[0], s[1], be_value(s.skip(2).take(4)) as u32);
        if (packed & 7) & 4 != 0 {
            match varint_decode(s.skip(6)) {
                Err(e) => (Err(e), 6),
                Ok((tail, n)) => (Ok(lpvec3_unpack(packed, tail as i64)), 6 + n),
            }
        } else {
            (Ok(lpvec3_unpack(packed, 0)), 6)
        }
    }
}

/// A byte read alone is its own value.
proof fn lemma_be_value_one(s: Seq<u8>)
    requires
        s.len() >= 1,
    ensures
        be_value(s.take(1)) == s[0],
        be_value(s.take(1)) as u8 == s[0],
{
    let t = s.take(1);
    assert(t.drop_last() =~= Seq::<u8>::empty());
    assert(be_value(t.drop_last()) == 0);
    assert(t.last() == s[0]);
    assert(be_value(t) == be_value(t.drop_last()) * 256 + t.last());
}

/// Reads the integer part of a low-precision vector.
pub fn decode_lpvec3_bits(src: &mut PacketBytes) -> (r: Result<LpVec3Bits, PacketError>)
    ensures
        r == lpvec3_decode(old(src)@).0,
        final(src)@ == old(src)@.skip(lpvec3_decode(old(src)@).1 as int),
{
    let ghost s = src@;
    let a: u8 = match src.get_u8() {
        Ok(v) => v,
        Err(e) => {
            assert(s.skip(0) =~= s);
            return Err(e);
        },
    };
    proof {
        lemma_be_value_one(s);
    }
    if a == 0 {
        return Ok(LpVec3Bits::Zero);
    }
    let b: u8 = match src.get_u8() {
        Ok(v) => v,
        Err(e) => {
            return Err(e);
        },
    };
    proof {
        lemma_be_value_one(s.skip(1));
        assert(s.skip(1).skip(1) =~= s.skip(2));
    }
    let c: u32 = match src.get_u32() {
        Ok(v) => v,
        Err(e) => {
            return Err(e);
        },
    };
    assert(s.skip(2).skip(4) =~= s.skip(6));
    let packed: i64 = ((c as i64) << 16) | ((b as i64) << 8) | (a as i64);
    let header = packed & 7;
    let is_extended = (header & 4) != 0;
    let scale_factor = if is_extended {
        let scale_tail = match src.get_var_int() {
            Ok(v) => v,
            Err(e) => {
                return Err(e);
            },
        };
        proof {
            crate::proto::varint::lemma_varint_decode_len(s.skip(6));
            assert(s.skip(6).skip(varint_decode(s.skip(6)).unwrap().1 as int) =~= s.skip(
                (6 + varint_decode(s.skip(6)).unwrap().1) as int,
            ));
        }
        ((scale_tail as i64) << 2) | (header & 3)
    } else {
        header & 3
    };
    if scale_factor == 0 && !is_extended {
        return Ok(LpVec3Bits::Zero);
    }
    Ok(LpVec3Bits::Scaled {
        scale: scale_factor,
        qx: (packed >> 3) & 0x7FFF,
        qy: (packed >> 18) & 0x7FFF,
        qz: (packed >> 33) & 0x7FFF,
    })
}

} // verus!
