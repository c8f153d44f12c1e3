//! The configuration packets.
use vstd::prelude::*;

use crate::codecs::base::{string_fits, MCCodec, MCDecode, MCEncode};
use crate::proto::error::PacketError;
use crate::proto::packet_bytes::PacketBytes;
use crate::proto::packets::Packet;
use crate::proto::packet_bytes::array_encode;
use crate::proto::packets::{copy_bytes, copy_strings, rest_decode};

verus! {

/// A data pack, by namespace, id and version.
#[derive(Debug, Clone)]
pub struct KnownPack {
    pub namespace: String,
    pub id: String,
    pub version: String,
}

impl View for KnownPack {
    type V = (Seq<char>, Seq<char>, Seq<char>);

    open spec fn view(&self) -> (Seq<char>, Seq<char>, Seq<char>) {
        (self.namespace@, self.id@, self.version@)
    }
}

impl KnownPack {
    pub fn new(namespace: String, id: String, version: String) -> (r: Self)
        ensures
            r.namespace == namespace,
            r.id == id,
            r.version == version,
    {
        Self { namespace, id, version }
    }
}

impl MCEncode for KnownPack {
    open spec fn spec_encode(v: (Seq<char>, Seq<char>, Seq<char>)) -> (Result<(), PacketError>, Seq<u8>) {
        let e0 = <String as MCEncode>::spec_encode(v.0);
        if e0.0 is Err {
            (e0.0, e0.1)
        } else {
        let e1 = <String as MCEncode>::spec_encode(v.1);
        if e1.0 is Err {
            (e1.0, e0.1 + e1.1)
        } else {
        let e2 = <String as MCEncode>::spec_encode(v.2);
        (e2.0, e0.1 + e1.1 + e2.1)
        }
        }
    }

    fn encode(&self, dst: &mut PacketBytes) -> (r: Result<(), PacketError>) {
        match self.namespace.encode(dst) {
            Ok(()) => {},
            Err(e) => {
                return Err(e);
            },
        }
        match self.id.encode(dst) {
            Ok(()) => {},
            Err(e) => {
                return Err(e);
            },
        }
        match self.version.encode(dst) {
            Ok(()) => {},
            Err(e) => {
                return Err(e);
            },
        }
        Ok(())
    }
}

impl MCDecode for KnownPack {
    open spec fn spec_decode(s: Seq<u8>) -> (Result<(Seq<char>, Seq<char>, Seq<char>), PacketError>, nat) {
        let d0 = <String as MCDecode>::spec_decode(s);
        match d0.0 {
            Err(e) => (Err(e), (d0.1) as nat),
            Ok(v0) => {
        let d1 = <String as MCDecode>::spec_decode(s.skip((d0.1) as int));
        match d1.0 {
            Err(e) => (Err(e), (d0.1 + d1.1) as nat),
            Ok(v1) => {
        let d2 = <String as MCDecode>::spec_decode(s.skip((d0.1 + d1.1) as int));
        match d2.0 {
            Err(e) => (Err(e), (d0.1 + d1.1 + d2.1) as nat),
            Ok(v2) => (Ok((v0, v1, v2)), (d0.1 + d1.1 + d2.1) as nat),
        }
        },
        }
        },
        }
    }

    proof fn lemma_decode_len(s: Seq<u8>) {
        <String as MCDecode>::lemma_decode_len(s);
        let n0 = <String as MCDecode>::spec_decode(s).1;
        <String as MCDecode>::lemma_decode_len(s.skip(n0 as int));
        let n1 = n0 + <String as MCDecode>::spec_decode(s.skip(n0 as int)).1;
        <String as MCDecode>::lemma_decode_len(s.skip(n1 as int));
    }

    fn decode(src: &mut PacketBytes) -> (r: Result<Self, PacketError>) {
        let ghost s = src@;
        let ghost n0 = <String as MCDecode>::spec_decode(s).1;
        proof {
            <String as MCDecode>::lemma_decode_len(s);
        }
        let namespace = match <String as MCDecode>::decode(src) {
            Ok(v) => {
                assert(src@ =~= s.skip(n0 as int));
                v
            },
            Err(e) => {
                return Err(e);
            },
        };
        let ghost n1 = n0 + <String as MCDecode>::spec_decode(s.skip(n0 as int)).1;
        proof {
            <String as MCDecode>::lemma_decode_len(s.skip(n0 as int));
        }
        let id = match <String as MCDecode>::decode(src) {
            Ok(v) => {
                assert(s.skip(n0 as int).skip((<String as MCDecode>::spec_decode(s.skip(n0 as int)).1) as int) =~= s.skip(n1 as int));
                assert(src@ =~= s.skip(n1 as int));
                v
            },
            Err(e) => {
                assert(s.skip(n0 as int).skip((<String as MCDecode>::spec_decode(s.skip(n0 as int)).1) as int) =~= s.skip(n1 as int));
                return Err(e);
            },
        };
        let ghost n2 = n1 + <String as MCDecode>::spec_decode(s.skip(n1 as int)).1;
        proof {
            <String as MCDecode>::lemma_decode_len(s.skip(n1 as int));
        }
        let version = match <String as MCDecode>::decode(src) {
            Ok(v) => {
                assert(s.skip(n1 as int).skip((<String as MCDecode>::spec_decode(s.skip(n1 as int)).1) as int) =~= s.skip(n2 as int));
                assert(src@ =~= s.skip(n2 as int));
                v
            },
            Err(e) => {
                assert(s.skip(n1 as int).skip((<String as MCDecode>::spec_decode(s.skip(n1 as int)).1) as int) =~= s.skip(n2 as int));
                return Err(e);
            },
        };
        Ok(Self { namespace, id, version })
    }
}

impl KnownPack {
    /// A copy of the pack.
    pub fn copy(&self) -> (r: Self)
        ensures
            r@ == self@,
    {
        KnownPack { namespace: self.namespace.clone(), id: self.id.clone(), version: self.version.clone() }
    }
}

/// A copy of a list of packs.
pub fn copy_known_packs(v: &Vec<KnownPack>) -> (r: Vec<KnownPack>)
    ensures
        r@.map_values(|x: KnownPack| x@) == v@.map_values(|x: KnownPack| x@),
{
    let mut out: Vec<KnownPack> = Vec::new();
    let mut i: usize = 0;
    while i < v.len()
        invariant
            i <= v@.len(),
            out@.map_values(|x: KnownPack| x@) == v@.take(i as int).map_values(|x: KnownPack| x@),
        decreases v@.len() - i,
    {
        out.push(v[i].copy());
        assert(v@.take(i + 1).map_values(|x: KnownPack| x@) =~= v@.take(i as int).map_values(|x: KnownPack| x@).push(v@[i as int]@));
        assert(out@.map_values(|x: KnownPack| x@) =~= v@.take(i as int).map_values(|x: KnownPack| x@).push(v@[i as int]@));
        i += 1;
    }
    assert(v@.take(v@.len() as int) =~= v@);
    out
}

/// The feature flags in use.
#[derive(Debug, Clone)]
pub struct ScUpdateEnabledFeatures {
    pub features: Vec<String>,
}

impl View for ScUpdateEnabledFeatures {
    type V = Seq<Seq<char>>;

    open spec fn view(&self) -> Seq<Seq<char>> {
        self.features@.map_values(|x: String| x@)
    }
}

impl ScUpdateEnabledFeatures {
    pub fn new(features: Vec<String>) -> (r: Self)
        ensures
            r.features == features,
    {
        Self { features }
    }
}

impl MCEncode for ScUpdateEnabledFeatures {
    open spec fn spec_encode(v: Seq<Seq<char>>) -> (Result<(), PacketError>, Seq<u8>) {
        let e0 = array_encode::<String>(v);
        (e0.0, e0.1)
    }

    fn encode(&self, dst: &mut PacketBytes) -> (r: Result<(), PacketError>) {
        match dst.put_array(copy_strings(&self.features)) {
            Ok(()) => {},
            Err(e) => {
                return Err(e);
            },
        }
        Ok(())
    }
}

impl Packet for ScUpdateEnabledFeatures {
    open spec fn spec_id() -> i32 {
        0x0C
    }

    fn id() -> (r: i32) {
        0x0C
    }
}
/// The data packs the server knows.
#[derive(Debug, Clone)]
pub struct ScSelectKnownPacks {
    pub features: Vec<KnownPack>,
}

impl View for ScSelectKnownPacks {
    type V = Seq<(Seq<char>, Seq<char>, Seq<char>)>;

    open spec fn view(&self) -> Seq<(Seq<char>, Seq<char>, Seq<char>)> {
        self.features@.map_values(|x: KnownPack| x@)
    }
}

impl ScSelectKnownPacks {
    pub fn new(features: Vec<KnownPack>) -> (r: Self)
        ensures
            r.features == features,
    {
        Self { features }
    }
}

impl MCEncode for ScSelectKnownPacks {
    open spec fn spec_encode(v: Seq<(Seq<char>, Seq<char>, Seq<char>)>) -> (Result<(), PacketError>, Seq<u8>) {
        let e0 = array_encode::<KnownPack>(v);
        (e0.0, e0.1)
    }

    fn encode(&self, dst: &mut PacketBytes) -> (r: Result<(), PacketError>) {
        match dst.put_array(copy_known_packs(&self.features)) {
            Ok(()) => {},
            Err(e) => {
                return Err(e);
            },
        }
        Ok(())
    }
}

impl Packet for ScSelectKnownPacks {
    open spec fn spec_id() -> i32 {
        0x0E
    }

    fn id() -> (r: i32) {
        0x0E
    }
}
/// Registry data, as prepared bytes.
#[derive(Debug, Clone)]
pub struct ScRegistries {
    pub raw: Vec<u8>,
}

impl View for ScRegistries {
    type V = Seq<u8>;

    open spec fn view(&self) -> Seq<u8> {
        self.raw@
    }
}

impl ScRegistries {
    pub fn new(raw: Vec<u8>) -> (r: Self)
        ensures
            r.raw == raw,
    {
        Self { raw }
    }
}

impl MCEncode for ScRegistries {
    open spec fn spec_encode(v: Seq<u8>) -> (Result<(), PacketError>, Seq<u8>) {
        let e0 = (Ok(()), v);
        (e0.0, e0.1)
    }

    fn encode(&self, dst: &mut PacketBytes) -> (r: Result<(), PacketError>) {
        match dst.put_remaining_array(copy_bytes(&self.raw)) {
            Ok(()) => {},
            Err(e) => {
                return Err(e);
            },
        }
        Ok(())
    }
}

impl MCDecode for ScRegistries {
    open spec fn spec_decode(s: Seq<u8>) -> (Result<Seq<u8>, PacketError>, nat) {
        let d0 = rest_decode(s);
        match d0.0 {
            Err(e) => (Err(e), (d0.1) as nat),
            Ok(v0) => (Ok(v0), (d0.1) as nat),
        }
    }

    proof fn lemma_decode_len(s: Seq<u8>) {

    }

    fn decode(src: &mut PacketBytes) -> (r: Result<Self, PacketError>) {
        let ghost s = src@;
        let ghost n0 = rest_decode(s).1;
        let raw = match src.get_remaining_array() {
            Ok(v) => {
                assert(src@ =~= s.skip(n0 as int));
                v
            },
            Err(e) => {
                return Err(e);
            },
        };
        Ok(Self { raw })
    }
}

impl Packet for ScRegistries {
    open spec fn spec_id() -> i32 {
        0x07
    }

    fn id() -> (r: i32) {
        0x07
    }
}
/// Tag data, as prepared bytes.
#[derive(Debug, Clone)]
pub struct ScTags {
    pub raw: Vec<u8>,
}

impl View for ScTags {
    type V = Seq<u8>;

    open spec fn view(&self) -> Seq<u8> {
        self.raw@
    }
}

impl ScTags {
    pub fn new(raw: Vec<u8>) -> (r: Self)
        ensures
            r.raw == raw,
    {
        Self { raw }
    }
}

impl MCEncode for ScTags {
    open spec fn spec_encode(v: Seq<u8>) -> (Result<(), PacketError>, Seq<u8>) {
        let e0 = (Ok(()), v);
        (e0.0, e0.1)
    }

    fn encode(&self, dst: &mut PacketBytes) -> (r: Result<(), PacketError>) {
        match dst.put_remaining_array(copy_bytes(&self.raw)) {
            Ok(()) => {},
            Err(e) => {
                return Err(e);
            },
        }
        Ok(())
    }
}

impl MCDecode for ScTags {
    open spec fn spec_decode(s: Seq<u8>) -> (Result<Seq<u8>, PacketError>, nat) {
        let d0 = rest_decode(s);
        match d0.0 {
            Err(e) => (Err(e), (d0.1) as nat),
            Ok(v0) => (Ok(v0), (d0.1) as nat),
        }
    }

    proof fn lemma_decode_len(s: Seq<u8>) {

    }

    fn decode(src: &mut PacketBytes) -> (r: Result<Self, PacketError>) {
        let ghost s = src@;
        let ghost n0 = rest_decode(s).1;
        let raw = match src.get_remaining_array() {
            Ok(v) => {
                assert(src@ =~= s.skip(n0 as int));
                v
            },
            Err(e) => {
                return Err(e);
            },
        };
        Ok(Self { raw })
    }
}

impl Packet for ScTags {
    open spec fn spec_id() -> i32 {
        0x0D
    }

    fn id() -> (r: i32) {
        0x0D
    }
}
/// Configuration is over.
#[derive(Debug, Clone)]
pub struct ScFinishConfiguration;

impl View for ScFinishConfiguration {
    type V = ();

    open spec fn view(&self) -> () {
        ()
    }
}

impl ScFinishConfiguration {
    pub fn new() -> (r: Self) {
        Self
    }
}

impl MCEncode for ScFinishConfiguration {
    open spec fn spec_encode(v: ()) -> (Result<(), PacketError>, Seq<u8>) {
        (Ok(()), Seq::empty())
    }

    fn encode(&self, dst: &mut PacketBytes) -> (r: Result<(), PacketError>) {
        Ok(())
    }
}

impl MCDecode for ScFinishConfiguration {
    open spec fn spec_decode(s: Seq<u8>) -> (Result<(), PacketError>, nat) {
        (Ok(()), 0)
    }

    proof fn lemma_decode_len(s: Seq<u8>) {

    }

    fn decode(src: &mut PacketBytes) -> (r: Result<Self, PacketError>) {
        Ok(Self)
    }
}

impl Packet for ScFinishConfiguration {
    open spec fn spec_id() -> i32 {
        0x03
    }

    fn id() -> (r: i32) {
        0x03
    }
}

impl MCCodec for KnownPack {
    /// The packet survives when its strings' lengths fit.
    open spec fn spec_roundtrips(v: (Seq<char>, Seq<char>, Seq<char>)) -> bool {
        string_fits(v.0) && string_fits(v.1) && string_fits(v.2)
    }

    proof fn lemma_roundtrip(v: (Seq<char>, Seq<char>, Seq<char>), rest: Seq<u8>) {
        let b0 = <String as MCEncode>::spec_encode(v.0).1;
        let b1 = <String as MCEncode>::spec_encode(v.1).1;
        let b2 = <String as MCEncode>::spec_encode(v.2).1;
        let t3 = rest;
        let t2 = b2 + t3;
        let t1 = b1 + t2;
        let t0 = b0 + t1;
        <String as MCCodec>::lemma_roundtrip(v.0, t1);
        <String as MCCodec>::lemma_roundtrip(v.1, t2);
        <String as MCCodec>::lemma_roundtrip(v.2, t3);
        assert(Self::spec_encode(v).1 + rest =~= t0);
        assert(t0.skip((b0.len()) as int) =~= t1);
        assert(t0.skip((b0.len() + b1.len()) as int) =~= t2);
    }
}

impl MCCodec for ScFinishConfiguration {
    open spec fn spec_roundtrips(v: ()) -> bool {
        true
    }

    proof fn lemma_roundtrip(v: (), rest: Seq<u8>) {
        assert(Self::spec_encode(v).1 + rest =~= rest);
    }
}

} // verus!
