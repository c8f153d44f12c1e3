//! The handshake: the one packet a connection opens with.
use vstd::prelude::*;

use crate::codecs::base::{string_fits, MCCodec, MCDecode, MCEncode};
use crate::proto::error::PacketError;
use crate::proto::packet_bytes::PacketBytes;
use crate::proto::packets::Packet;
use crate::proto::varint::{EncodedVarInt, VarInt};

verus! {

/// What the client intends: its protocol, the address it dialled, and
/// whether it wants the status (1) or to log in (2).
#[derive(Debug, Clone)]
pub struct CsIntention {
    pub protocol_version: VarInt,
    pub server_address: String,
    pub server_port: u16,
    pub intent: VarInt,
}

impl View for CsIntention {
    type V = (i32, Seq<char>, u16, i32);

    open spec fn view(&self) -> (i32, Seq<char>, u16, i32) {
        (self.protocol_version, self.server_address@, self.server_port, self.intent)
    }
}

impl CsIntention {
    pub fn new(protocol_version: VarInt, server_address: String, server_port: u16, intent: VarInt) -> (r: Self)
        ensures
            r.protocol_version == protocol_version,
            r.server_address == server_address,
            r.server_port == server_port,
            r.intent == intent,
    {
        Self { protocol_version, server_address, server_port, intent }
    }
}

impl MCEncode for CsIntention {
    open spec fn spec_encode(v: (i32, Seq<char>, u16, i32)) -> (Result<(), PacketError>, Seq<u8>) {
        let e0 = <EncodedVarInt as MCEncode>::spec_encode(v.0);
        if e0.0 is Err {
            (e0.0, e0.1)
        } else {
        let e1 = <String as MCEncode>::spec_encode(v.1);
        if e1.0 is Err {
            (e1.0, e0.1 + e1.1)
        } else {
        let e2 = <u16 as MCEncode>::spec_encode(v.2);
        if e2.0 is Err {
            (e2.0, e0.1 + e1.1 + e2.1)
        } else {
        let e3 = <EncodedVarInt as MCEncode>::spec_encode(v.3);
        (e3.0, e0.1 + e1.1 + e2.1 + e3.1)
        }
        }
        }
    }

    fn encode(&self, dst: &mut PacketBytes) -> (r: Result<(), PacketError>) {
        match EncodedVarInt(self.protocol_version).encode(dst) {
            Ok(()) => {},
            Err(e) => {
                return Err(e);
            },
        }
        match self.server_address.encode(dst) {
            Ok(()) => {},
            Err(e) => {
                return Err(e);
            },
        }
        match self.server_port.encode(dst) {
            Ok(()) => {},
            Err(e) => {
                return Err(e);
            },
        }
        match EncodedVarInt(self.intent).encode(dst) {
            Ok(()) => {},
            Err(e) => {
                return Err(e);
            },
        }
        Ok(())
    }
}

impl MCDecode for CsIntention {
    open spec fn spec_decode(s: Seq<u8>) -> (Result<(i32, Seq<char>, u16, i32), PacketError>, nat) {
        let d0 = <EncodedVarInt as MCDecode>::spec_decode(s);
        match d0.0 {
            Err(e) => (Err(e), (d0.1) as nat),
            Ok(v0) => {
        let d1 = <String as MCDecode>::spec_decode(s.skip((d0.1) as int));
        match d1.0 {
            Err(e) => (Err(e), (d0.1 + d1.1) as nat),
            Ok(v1) => {
        let d2 = <u16 as MCDecode>::spec_decode(s.skip((d0.1 + d1.1) as int));
        match d2.0 {
            Err(e) => (Err(e), (d0.1 + d1.1 + d2.1) as nat),
            Ok(v2) => {
        let d3 = <EncodedVarInt as MCDecode>::spec_decode(s.skip((d0.1 + d1.1 + d2.1) as int));
        match d3.0 {
            Err(e) => (Err(e), (d0.1 + d1.1 + d2.1 + d3.1) as nat),
            Ok(v3) => (Ok((v0, v1, v2, v3)), (d0.1 + d1.1 + d2.1 + d3.1) as nat),
        }
        },
        }
        },
        }
        },
        }
    }

    proof fn lemma_decode_len(s: Seq<u8>) {
        <EncodedVarInt as MCDecode>::lemma_decode_len(s);
        let n0 = <EncodedVarInt as MCDecode>::spec_decode(s).1;
        <String as MCDecode>::lemma_decode_len(s.skip(n0 as int));
        let n1 = n0 + <String as MCDecode>::spec_decode(s.skip(n0 as int)).1;
        <u16 as MCDecode>::lemma_decode_len(s.skip(n1 as int));
        let n2 = n1 + <u16 as MCDecode>::spec_decode(s.skip(n1 as int)).1;
        <EncodedVarInt as MCDecode>::lemma_decode_len(s.skip(n2 as int));
    }

    fn decode(src: &mut PacketBytes) -> (r: Result<Self, PacketError>) {
        let ghost s = src@;
        let ghost n0 = <EncodedVarInt as MCDecode>::spec_decode(s).1;
        proof {
            <EncodedVarInt as MCDecode>::lemma_decode_len(s);
        }
        let protocol_version = match <EncodedVarInt as MCDecode>::decode(src) {
            Ok(v) => {
                assert(src@ =~= s.skip(n0 as int));
                v.0
            },
            Err(e) => {
                return Err(e);
            },
        };
        let ghost n1 = n0 + <String as MCDecode>::spec_decode(s.skip(n0 as int)).1;
        proof {
            <String as MCDecode>::lemma_decode_len(s.skip(n0 as int));
        }
        let server_address = match <String as MCDecode>::decode(src) {
            Ok(v) => {
                assert(s.skip(n0 as int).skip((<String as MCDecode>::spec_decode(s.skip(n0 as int)).1) as int) =~= s.skip(n1 as int));
                assert(src@ =~= s.skip(n1 as int));
                v
            },
            Err(e) => {
                assert(s.skip(n0 as int).skip((<String as MCDecode>::spec_decode(s.skip(n0 as int)).1) as int) =~= s.skip(n1 as int));
                return Err(e);
            },
        };
        let ghost n2 = n1 + <u16 as MCDecode>::spec_decode(s.skip(n1 as int)).1;
        proof {
            <u16 as MCDecode>::lemma_decode_len(s.skip(n1 as int));
        }
        let server_port = match <u16 as MCDecode>::decode(src) {
            Ok(v) => {
                assert(s.skip(n1 as int).skip((<u16 as MCDecode>::spec_decode(s.skip(n1 as int)).1) as int) =~= s.skip(n2 as int));
                assert(src@ =~= s.skip(n2 as int));
                v
            },
            Err(e) => {
                assert(s.skip(n1 as int).skip((<u16 as MCDecode>::spec_decode(s.skip(n1 as int)).1) as int) =~= s.skip(n2 as int));
                return Err(e);
            },
        };
        let ghost n3 = n2 + <EncodedVarInt as MCDecode>::spec_decode(s.skip(n2 as int)).1;
        proof {
            <EncodedVarInt as MCDecode>::lemma_decode_len(s.skip(n2 as int));
        }
        let intent = match <EncodedVarInt as MCDecode>::decode(src) {
            Ok(v) => {
                assert(s.skip(n2 as int).skip((<EncodedVarInt as MCDecode>::spec_decode(s.skip(n2 as int)).1) as int) =~= s.skip(n3 as int));
                assert(src@ =~= s.skip(n3 as int));
                v.0
            },
            Err(e) => {
                assert(s.skip(n2 as int).skip((<EncodedVarInt as MCDecode>::spec_decode(s.skip(n2 as int)).1) as int) =~= s.skip(n3 as int));
                return Err(e);
            },
        };
        Ok(Self { protocol_version, server_address, server_port, intent })
    }
}

impl Packet for CsIntention {
    open spec fn spec_id() -> i32 {
        0x00
    }

    fn id() -> (r: i32) {
        0x00
    }
}

impl MCCodec for CsIntention {
    /// The packet survives when its strings' lengths fit.
    open spec fn spec_roundtrips(v: (i32, Seq<char>, u16, i32)) -> bool {
        string_fits(v.1)
    }

    proof fn lemma_roundtrip(v: (i32, Seq<char>, u16, i32), rest: Seq<u8>) {
        let b0 = <EncodedVarInt as MCEncode>::spec_encode(v.0).1;
        let b1 = <String as MCEncode>::spec_encode(v.1).1;
        let b2 = <u16 as MCEncode>::spec_encode(v.2).1;
        let b3 = <EncodedVarInt as MCEncode>::spec_encode(v.3).1;
        let t4 = rest;
        let t3 = b3 + t4;
        let t2 = b2 + t3;
        let t1 = b1 + t2;
        let t0 = b0 + t1;
        <EncodedVarInt as MCCodec>::lemma_roundtrip(v.0, t1);
        <String as MCCodec>::lemma_roundtrip(v.1, t2);
        <u16 as MCCodec>::lemma_roundtrip(v.2, t3);
        <EncodedVarInt as MCCodec>::lemma_roundtrip(v.3, t4);
        assert(Self::spec_encode(v).1 + rest =~= t0);
        assert(t0.skip((b0.len()) as int) =~= t1);
        assert(t0.skip((b0.len() + b1.len()) as int) =~= t2);
        assert(t0.skip((b0.len() + b1.len() + b2.len()) as int) =~= t3);
    }
}

} // verus!
