//! Packet framing: a VarInt length, then the packet; once compression is on,
//! the packet carries its uncompressed length (0 when sent as is) and, from
//! the threshold on, a zlib stream in place of its bytes.
use flate2::read::ZlibDecoder;
use flate2::write::ZlibEncoder;
use flate2::Compression;
use std::io::{Read, Write};
use vstd::prelude::*;

use crate::proto::error::PacketError;
use crate::proto::packet_bytes::PacketBytes;
use crate::proto::varint::{
    lemma_varint_bytes_len, lemma_varint_roundtrip, varint_bytes,
    varint_decode,
};

verus! {

/// The threshold value that means compression is off.
pub const DISABLED: i32 = -1;

#[verifier::external_type_specification]
#[verifier::external_body]
pub struct ExIoError(std::io::Error);

/// What zlib at the default level makes of some bytes, or `None` when the
/// encoder fails.
pub uninterp spec fn zlib_deflate(data: Seq<u8>) -> Option<Seq<u8>>;

/// What inflating a zlib stream gives, or `None` when it does not inflate.
pub uninterp spec fn zlib_inflate(data: Seq<u8>) -> Option<Seq<u8>>;

/// `flate2::write::ZlibEncoder` at `Compression::default()`, written into a
/// `Vec` and finished: the result is named by `zlib_deflate`, and a stream it
/// produced inflates back to the input (zlib is lossless).
#[verifier::external_body]
fn zlib_compress(data: &[u8]) -> (r: Result<Vec<u8>, std::io::Error>)
    ensures
        match r {
            Ok(v) => zlib_deflate(data@) == Some(v@),
            Err(_) => zlib_deflate(data@) is None,
        },
        r matches Ok(v) ==> zlib_inflate(v@) == Some(data@),
{
    let mut encoder = ZlibEncoder::new(Vec::new(), Compression::default());
    encoder.write_all(data)?;
    encoder.finish()
}

/// `flate2::read::ZlibDecoder` over the bytes, read to the end: the result
/// is named by `zlib_inflate`.
#[verifier::external_body]
fn zlib_decompress(data: &[u8]) -> (r: Result<Vec<u8>, std::io::Error>)
    ensures
        match r {
            Ok(v) => zlib_inflate(data@) == Some(v@),
            Err(_) => zlib_inflate(data@) is None,
        },
{
    let mut decoder = ZlibDecoder::new(data);
    let mut out = Vec::new();
    decoder.read_to_end(&mut out)?;
    Ok(out)
}

/// A packet before framing: its id as a VarInt, then its body.
pub open spec fn packet_bytes(id: i32, body: Seq<u8>) -> Seq<u8> {
    varint_bytes(id) + body
}

/// Bytes behind their length, a VarInt of the length as an i32.
pub open spec fn length_prefixed(payload: Seq<u8>) -> Seq<u8> {
    varint_bytes(payload.len() as i32) + payload
}

/// The frame that carries packet `id` with `body` at compression threshold
/// `thr`, or `None` when the body is to be compressed and the encoder fails.
pub open spec fn frame_spec(id: i32, body: Seq<u8>, thr: i32) -> Option<Seq<u8>> {
    let p = packet_bytes(id, body);
    if thr == DISABLED {
        Some(length_prefixed(p))
    } else if p.len() as i32 >= thr {
        match zlib_deflate(p) {
            Some(c) => Some(length_prefixed(varint_bytes(p.len() as i32) + c)),
            None => None,
        }
    } else {
        Some(length_prefixed(varint_bytes(0) + p))
    }
}

/// Whether reading a frame's bytes (after its length) at threshold `thr`
/// stays clear of a negative uncompressed length, which the reader cannot
/// size a buffer for.
pub open spec fn unframe_defined(buf: Seq<u8>, thr: i32) -> bool {
    thr != DISABLED ==> !(varint_decode(buf) matches Ok((len, _)) && len < 0)
}

/// What reading a frame's bytes (after its length) at threshold `thr` gives:
/// the packet id and the rest of the packet.
pub open spec fn unframe_spec(buf: Seq<u8>, thr: i32) -> Result<(i32, Seq<u8>), PacketError> {
    let packet: Result<Seq<u8>, PacketError> = if thr == DISABLED {
        Ok(buf)
    } else {
        match varint_decode(buf) {
            Err(e) => Err(e),
            Ok((len, n)) => if len == 0 {
                Ok(buf.skip(n as int))
            } else {
                match zlib_inflate(buf.skip(n as int)) {
                    Some(d) => Ok(d),
                    None => Err(PacketError::Decompression),
                }
            },
        }
    };
    match packet {
        Err(e) => Err(e),
        Ok(p) => match varint_decode(p) {
            Err(e) => Err(e),
            Ok((id, m)) => Ok((id, p.skip(m as int))),
        },
    }
}

/// Whether a frame reads back as packet `id` with `body`: its length prefix
/// names the bytes after it (when they fit an i32), and those read back as
/// the packet.
pub open spec fn frame_reads_back(f: Seq<u8>, id: i32, body: Seq<u8>, thr: i32) -> bool {
    match varint_decode(f) {
        Ok((len, n)) => {
            &&& f.len() - n <= i32::MAX ==> len == f.len() - n
            &&& unframe_defined(f.skip(n as int), thr)
            &&& unframe_spec(f.skip(n as int), thr) == Ok::<(i32, Seq<u8>), PacketError>((id, body))
        },
        Err(_) => false,
    }
}

/// The VarInt bytes of `v`.
fn varint_vec(v: i32) -> (r: Vec<u8>)
    ensures
        r@ == varint_bytes(v),
{
    proof {
        lemma_varint_bytes_len(v);
    }
    let mut b = PacketBytes::new();
    let _ = b.put_var_int(v);
    b.to_vec()
}

/// `payload` behind its length.
fn prefix_length(payload: Vec<u8>) -> (r: Vec<u8>)
    ensures
        r@ == length_prefixed(payload@),
{
    let mut out = varint_vec(payload.len() as i32);
    let mut rest = payload;
    out.append(&mut rest);
    out
}

proof fn lemma_skip_concat(a: Seq<u8>, b: Seq<u8>)
    ensures
        (a + b).skip(a.len() as int) == b,
{
    assert((a + b).skip(a.len() as int) =~= b);
}

/// The frame of a compressed packet: the packet's uncompressed length, then
/// its zlib stream, behind the length of both.
pub fn frame_compressed(packet_len: usize, compressed: Vec<u8>) -> (r: Vec<u8>)
    ensures
        r@ == length_prefixed(varint_bytes(packet_len as i32) + compressed@),
{
    let mut payload = varint_vec(packet_len as i32);
    let mut rest = compressed;
    payload.append(&mut rest);
    prefix_length(payload)
}

/// Splits a packet into its id and the rest of it.
pub fn split_packet_id(packet: PacketBytes) -> (r: Result<(i32, PacketBytes), PacketError>)
    ensures
        match varint_decode(packet@) {
            Ok((id, m)) => r matches Ok((i, b)) && i == id && b@ == packet@.skip(m as int),
            Err(e) => r == Err::<(i32, PacketBytes), PacketError>(e),
        },
{
    let mut bytes = packet;
    match bytes.get_var_int() {
        Ok(packet_id) => Ok((packet_id, bytes)),
        Err(e) => Err(e),
    }
}

/// Frames packet `packet_id` with `body` for a connection whose compression
/// threshold is `threshold` (-1 when compression is off). The frame reads
/// back as the same packet.
pub fn frame_packet(packet_id: i32, body: &[u8], threshold: i32) -> (r: Result<Vec<u8>, PacketError>)
    requires
        packet_bytes(packet_id, body@).len() + 5 <= i32::MAX,
    ensures
        match frame_spec(packet_id, body@, threshold) {
            Some(f) => r matches Ok(v) && v@ == f,
            None => r == Err::<Vec<u8>, PacketError>(PacketError::Compression),
        },
        r matches Ok(f) ==> frame_reads_back(f@, packet_id, body@, threshold),
{
    let ghost p = packet_bytes(packet_id, body@);
    let mut packet = varint_vec(packet_id);
    let mut tail = PacketBytes::from_slice(body).to_vec();
    packet.append(&mut tail);
    assert(packet@ == p);
    proof {
        lemma_varint_bytes_len(packet_id);
        lemma_varint_roundtrip(packet_id, body@);
        lemma_skip_concat(varint_bytes(packet_id), body@);
    }
    if threshold == DISABLED {
        let f = prefix_length(packet);
        proof {
            lemma_varint_roundtrip(p.len() as i32, p);
            lemma_skip_concat(varint_bytes(p.len() as i32), p);
        }
        Ok(f)
    } else if (packet.len() as i32) >= threshold {
        match zlib_compress(packet.as_slice()) {
            Ok(compressed) => {
                let ghost c = compressed@;
                let ghost pl = varint_bytes(p.len() as i32) + c;
                let f = frame_compressed(packet.len(), compressed);
                proof {
                    lemma_varint_roundtrip(pl.len() as i32, pl);
                    lemma_skip_concat(varint_bytes(pl.len() as i32), pl);
                    lemma_varint_roundtrip(p.len() as i32, c);
                    lemma_skip_concat(varint_bytes(p.len() as i32), c);
                }
                Ok(f)
            },
            Err(_) => Err(PacketError::Compression),
        }
    } else {
        let mut payload = varint_vec(0);
        let ghost z = payload@;
        payload.append(&mut packet);
        let ghost pl = payload@;
        let f = prefix_length(payload);
        proof {
            lemma_varint_roundtrip(pl.len() as i32, pl);
            lemma_skip_concat(varint_bytes(pl.len() as i32), pl);
            lemma_varint_roundtrip(0, p);
            lemma_skip_concat(z, p);
        }
        Ok(f)
    }
}

/// Reads a frame's bytes (after its length) at compression threshold
/// `threshold`: the packet id, and the rest of the packet.
pub fn read_frame(buf: &[u8], threshold: i32) -> (r: Result<(i32, PacketBytes), PacketError>)
    requires
        unframe_defined(buf@, threshold),
    ensures
        match unframe_spec(buf@, threshold) {
            Ok((id, rest)) => r matches Ok((i, b)) && i == id && b@ == rest,
            Err(e) => r == Err::<(i32, PacketBytes), PacketError>(e),
        },
{
    let mut bytes = PacketBytes::from_slice(buf);
    if threshold != DISABLED {
        let data_len = match bytes.get_var_int() {
            Ok(v) => v,
            Err(e) => return Err(e),
        };
        if data_len != 0 {
            let compressed = bytes.split();
            match zlib_decompress(compressed.as_slice()) {
                Ok(decompressed) => {
                    bytes = PacketBytes::from_slice(decompressed.as_slice());
                },
                Err(_) => return Err(PacketError::Decompression),
            }
        }
    }
    split_packet_id(bytes)
}

/// What a VarInt read from a byte stream has come to after the bytes so far.
pub enum VarIntStep {
    /// Another byte is needed.
    More,
    /// The VarInt ended with this value.
    Done(i32),
    /// Five bytes all said that another follows, and a sixth came.
    TooBig,
}

/// Reads a VarInt from a stream one byte at a time.
pub struct VarIntReader {
    seen: Vec<u8>,
}

impl VarIntReader {
    /// The bytes taken so far.
    pub closed spec fn bytes(&self) -> Seq<u8> {
        self.seen@
    }

    pub fn new() -> (r: Self)
        ensures
            r.bytes() == Seq::<u8>::empty(),
    {
        VarIntReader { seen: Vec::new() }
    }

    /// Takes the next byte of the stream; says whether the VarInt is read,
    /// too long, or not over yet.
    pub fn push(&mut self, byte: u8) -> (r: VarIntStep)
        requires
            old(self).bytes().len() < 6,
        ensures
            final(self).bytes() == old(self).bytes().push(byte),
            match r {
                VarIntStep::More => varint_decode(final(self).bytes()) == Err::<(i32, nat), PacketError>(PacketError::Eof),
                VarIntStep::Done(v) => varint_decode(final(self).bytes()) matches Ok((w, _)) && w == v,
                VarIntStep::TooBig => varint_decode(final(self).bytes()) == Err::<(i32, nat), PacketError>(PacketError::VarIntTooBig),
            },
    {
        self.seen.push(byte);
        let mut probe = PacketBytes::from_slice(self.seen.as_slice());
        match probe.get_var_int() {
            Ok(v) => VarIntStep::Done(v),
            Err(PacketError::VarIntTooBig) => VarIntStep::TooBig,
            Err(_) => {
                proof {
                    assert(varint_decode(self.seen@) is Err);
                }
                VarIntStep::More
            },
        }
    }
}

} // verus!
