//! The login packets.
use vstd::prelude::*;

use crate::codecs::base::{string_fits, MCCodec, MCDecode, MCEncode};
use crate::proto::error::PacketError;
use crate::proto::packet_bytes::PacketBytes;
use crate::proto::packets::{lemma_uuid_roundtrip, Packet};
use crate::codecs::game_profile::GameProfile;
use crate::proto::packet_bytes::{uuid_bytes, uuid_decode};
use crate::proto::varint::{EncodedVarInt, VarInt};

verus! {

/// Compression from now on, for packets of at least `threshold` bytes.
#[derive(Debug, Clone)]
pub struct ScSetCompression {
    pub threshold: VarInt,
}

impl View for ScSetCompression {
    type V = i32;

    open spec fn view(&self) -> i32 {
        self.threshold
    }
}

impl ScSetCompression {
    pub fn new(threshold: VarInt) -> (r: Self)
        ensures
            r.threshold == threshold,
    {
        Self { threshold }
    }
}

impl MCEncode for ScSetCompression {
    open spec fn spec_encode(v: i32) -> (Result<(), PacketError>, Seq<u8>) {
        let e0 = <EncodedVarInt as MCEncode>::spec_encode(v);
        (e0.0, e0.1)
    }

    fn encode(&self, dst: &mut PacketBytes) -> (r: Result<(), PacketError>) {
        match EncodedVarInt(self.threshold).encode(dst) {
            Ok(()) => {},
            Err(e) => {
                return Err(e);
            },
        }
        Ok(())
    }
}

impl MCDecode for ScSetCompression {
    open spec fn spec_decode(s: Seq<u8>) -> (Result<i32, PacketError>, nat) {
        let d0 = <EncodedVarInt as MCDecode>::spec_decode(s);
        match d0.0 {
            Err(e) => (Err(e), (d0.1) as nat),
            Ok(v0) => (Ok(v0), (d0.1) as nat),
        }
    }

    proof fn lemma_decode_len(s: Seq<u8>) {
        <EncodedVarInt as MCDecode>::lemma_decode_len(s);
    }

    fn decode(src: &mut PacketBytes) -> (r: Result<Self, PacketError>) {
        let ghost s = src@;
        let ghost n0 = <EncodedVarInt as MCDecode>::spec_decode(s).1;
        proof {
            <EncodedVarInt as MCDecode>::lemma_decode_len(s);
        }
        let threshold = match <EncodedVarInt as MCDecode>::decode(src) {
            Ok(v) => {
                assert(src@ =~= s.skip(n0 as int));
                v.0
            },
            Err(e) => {
                return Err(e);
            },
        };
        Ok(Self { threshold })
    }
}

impl Packet for ScSetCompression {
    open spec fn spec_id() -> i32 {
        0x03
    }

    fn id() -> (r: i32) {
        0x03
    }
}
/// The login succeeded, as this profile.
#[derive(Debug, Clone)]
pub struct ScLoginSuccess {
    pub game_profile: GameProfile,
}

impl View for ScLoginSuccess {
    type V = (u128, Seq<char>);

    open spec fn view(&self) -> (u128, Seq<char>) {
        self.game_profile@
    }
}

impl ScLoginSuccess {
    pub fn new(game_profile: GameProfile) -> (r: Self)
        ensures
            r.game_profile == game_profile,
    {
        Self { game_profile }
    }
}

impl MCEncode for ScLoginSuccess {
    open spec fn spec_encode(v: (u128, Seq<char>)) -> (Result<(), PacketError>, Seq<u8>) {
        let e0 = <GameProfile as MCEncode>::spec_encode(v);
        (e0.0, e0.1)
    }

    fn encode(&self, dst: &mut PacketBytes) -> (r: Result<(), PacketError>) {
        match self.game_profile.encode(dst) {
            Ok(()) => {},
            Err(e) => {
                return Err(e);
            },
        }
        Ok(())
    }
}

impl MCDecode for ScLoginSuccess {
    open spec fn spec_decode(s: Seq<u8>) -> (Result<(u128, Seq<char>), PacketError>, nat) {
        let d0 = <GameProfile as MCDecode>::spec_decode(s);
        match d0.0 {
            Err(e) => (Err(e), (d0.1) as nat),
            Ok(v0) => (Ok(v0), (d0.1) as nat),
        }
    }

    proof fn lemma_decode_len(s: Seq<u8>) {
        <GameProfile as MCDecode>::lemma_decode_len(s);
    }

    fn decode(src: &mut PacketBytes) -> (r: Result<Self, PacketError>) {
        let ghost s = src@;
        let ghost n0 = <GameProfile as MCDecode>::spec_decode(s).1;
        proof {
            <GameProfile as MCDecode>::lemma_decode_len(s);
        }
        let game_profile = match <GameProfile as MCDecode>::decode(src) {
            Ok(v) => {
                assert(src@ =~= s.skip(n0 as int));
                v
            },
            Err(e) => {
                return Err(e);
            },
        };
        Ok(Self { game_profile })
    }
}

impl Packet for ScLoginSuccess {
    open spec fn spec_id() -> i32 {
        0x02
    }

    fn id() -> (r: i32) {
        0x02
    }
}
/// The client asks to log in.
#[derive(Debug, Clone)]
pub struct CsLoginStart {
    pub username: String,
    pub uuid: u128,
}

impl View for CsLoginStart {
    type V = (Seq<char>, u128);

    open spec fn view(&self) -> (Seq<char>, u128) {
        (self.username@, self.uuid)
    }
}

impl CsLoginStart {
    pub fn new(username: String, uuid: u128) -> (r: Self)
        ensures
            r.username == username,
            r.uuid == uuid,
    {
        Self { username, uuid }
    }
}

impl MCEncode for CsLoginStart {
    open spec fn spec_encode(v: (Seq<char>, u128)) -> (Result<(), PacketError>, Seq<u8>) {
        let e0 = <String as MCEncode>::spec_encode(v.0);
        if e0.0 is Err {
            (e0.0, e0.1)
        } else {
        let e1 = (Ok(()), uuid_bytes(v.1));
        (e1.0, e0.1 + e1.1)
        }
    }

    fn encode(&self, dst: &mut PacketBytes) -> (r: Result<(), PacketError>) {
        match self.username.encode(dst) {
            Ok(()) => {},
            Err(e) => {
                return Err(e);
            },
        }
        proof {
            crate::proto::bytes_buf::lemma_be_bytes_len(self.uuid as int, 16);
        }
        match dst.put_uuid(self.uuid) {
            Ok(()) => {},
            Err(e) => {
                return Err(e);
            },
        }
        Ok(())
    }
}

impl MCDecode for CsLoginStart {
    open spec fn spec_decode(s: Seq<u8>) -> (Result<(Seq<char>, u128), PacketError>, nat) {
        let d0 = <String as MCDecode>::spec_decode(s);
        match d0.0 {
            Err(e) => (Err(e), (d0.1) as nat),
            Ok(v0) => {
        let d1 = uuid_decode(s.skip((d0.1) as int));
        match d1.0 {
            Err(e) => (Err(e), (d0.1 + d1.1) as nat),
            Ok(v1) => (Ok((v0, v1)), (d0.1 + d1.1) as nat),
        }
        },
        }
    }

    proof fn lemma_decode_len(s: Seq<u8>) {
        <String as MCDecode>::lemma_decode_len(s);
        let n0 = <String as MCDecode>::spec_decode(s).1;
    }

    fn decode(src: &mut PacketBytes) -> (r: Result<Self, PacketError>) {
        let ghost s = src@;
        let ghost n0 = <String as MCDecode>::spec_decode(s).1;
        proof {
            <String as MCDecode>::lemma_decode_len(s);
        }
        let username = match <String as MCDecode>::decode(src) {
            Ok(v) => {
                assert(src@ =~= s.skip(n0 as int));
                v
            },
            Err(e) => {
                return Err(e);
            },
        };
        let ghost n1 = n0 + uuid_decode(s.skip(n0 as int)).1;
        let uuid = match src.get_uuid() {
            Ok(v) => {
                assert(s.skip(n0 as int).skip((uuid_decode(s.skip(n0 as int)).1) as int) =~= s.skip(n1 as int));
                assert(src@ =~= s.skip(n1 as int));
                v
            },
            Err(e) => {
                assert(s.skip(n0 as int).skip((uuid_decode(s.skip(n0 as int)).1) as int) =~= s.skip(n1 as int));
                return Err(e);
            },
        };
        Ok(Self { username, uuid })
    }
}

impl Packet for CsLoginStart {
    open spec fn spec_id() -> i32 {
        0x00
    }

    fn id() -> (r: i32) {
        0x00
    }
}

impl MCCodec for ScSetCompression {
    open spec fn spec_roundtrips(v: i32) -> bool {
        true
    }

    proof fn lemma_roundtrip(v: i32, rest: Seq<u8>) {
        let b0 = <EncodedVarInt as MCEncode>::spec_encode(v).1;
        let t1 = rest;
        let t0 = b0 + t1;
        <EncodedVarInt as MCCodec>::lemma_roundtrip(v, t1);
        assert(Self::spec_encode(v).1 + rest =~= t0);
    }
}

impl MCCodec for CsLoginStart {
    /// The packet survives when its strings' lengths fit.
    open spec fn spec_roundtrips(v: (Seq<char>, u128)) -> bool {
        string_fits(v.0)
    }

    proof fn lemma_roundtrip(v: (Seq<char>, u128), rest: Seq<u8>) {
        let b0 = <String as MCEncode>::spec_encode(v.0).1;
        let b1 = uuid_bytes(v.1);
        let t2 = rest;
        let t1 = b1 + t2;
        let t0 = b0 + t1;
        <String as MCCodec>::lemma_roundtrip(v.0, t1);
        lemma_uuid_roundtrip(v.1, t2);
        assert(Self::spec_encode(v).1 + rest =~= t0);
        assert(t0.skip((b0.len()) as int) =~= t1);
    }
}

} // verus!
