//! VarInt: a 32-bit integer in one to five bytes, seven bits per byte, least
//! significant group first, the high bit of a byte set when another follows.
use bytes::BytesMut;
use vstd::arithmetic::power::pow;
use vstd::prelude::*;

use crate::proto::bytes_buf::{
    be_bytes, bm_byte, bm_len, bm_put_u8, bm_split_to, bytes_mut_content, max_buffer_len,
};
use crate::proto::error::PacketError;

verus! {

pub type VarInt = i32;

/// An `i32` that travels as a VarInt.
#[derive(Debug, Clone, Copy, PartialEq, Eq, PartialOrd, Ord, Structural)]
pub struct EncodedVarInt(pub i32);

/// How far reading a VarInt from the start of some bytes gets.
pub enum VarIntScan {
    /// The VarInt ends after this many bytes.
    Done(nat),
    /// The bytes end before the VarInt does.
    Eof,
    /// Five bytes all say that another follows, and a sixth is there.
    TooBig,
}

/// Scans from byte `i` for the byte that ends a VarInt.
pub open spec fn varint_scan(s: Seq<u8>, i: nat) -> VarIntScan
    decreases 5 - i,
{
    if i >= s.len() {
        VarIntScan::Eof
    } else if i >= 5 {
        VarIntScan::TooBig
    } else if s[i as int] < 0x80 {
        VarIntScan::Done(i + 1)
    } else {
        varint_scan(s, i + 1)
    }
}

/// The number that the seven-bit groups of the first `n` bytes spell.
pub open spec fn varint_payload(s: Seq<u8>, n: nat) -> int
    decreases n,
{
    if n == 0 {
        0
    } else {
        varint_payload(s, (n - 1) as nat) + (s[n - 1] % 0x80) * pow(0x80, (n - 1) as nat)
    }
}

/// What reading a VarInt from the start of `s` gives: the value and the
/// number of bytes it takes, or the error. Bits past the 32nd are dropped.
pub open spec fn varint_decode(s: Seq<u8>) -> Result<(i32, nat), PacketError> {
    match varint_scan(s, 0) {
        VarIntScan::Done(n) => Ok(((varint_payload(s, n) % 0x1_0000_0000) as u32 as i32, n)),
        VarIntScan::Eof => Err(PacketError::Eof),
        VarIntScan::TooBig => Err(PacketError::VarIntTooBig),
    }
}

/// The value of the VarInt at the start of `s`, or why there is none.
pub open spec fn varint_value(s: Seq<u8>) -> Result<i32, PacketError> {
    match varint_decode(s) {
        Ok((v, _)) => Ok(v),
        Err(e) => Err(e),
    }
}

/// The bytes of the VarInt for the 32 bits `v`.
pub open spec fn varint_encode(v: u32) -> Seq<u8>
    decreases v,
{
    if v < 0x80 {
        seq![v as u8]
    } else {
        seq![(v % 0x80 + 0x80) as u8] + varint_encode(v / 0x80)
    }
}

/// The bytes of the VarInt for `v`.
pub open spec fn varint_bytes(v: i32) -> Seq<u8> {
    varint_encode(v as u32)
}

proof fn lemma_pow128_values()
    ensures
        pow(0x80, 0) == 1,
        pow(0x80, 1) == 0x80,
        pow(0x80, 2) == 0x4000,
        pow(0x80, 3) == 0x20_0000,
        pow(0x80, 4) == 0x1000_0000,
        pow(0x80, 5) == 0x8_0000_0000,
{
    reveal_with_fuel(pow, 6);
}

/// A VarInt takes one to five bytes, each but the last with its high bit set.
pub proof fn lemma_varint_encode_shape(v: u32)
    ensures
        1 <= varint_encode(v).len() <= 5,
        v < 0x80 <==> varint_encode(v).len() == 1,
        forall|j: int|
            0 <= j < varint_encode(v).len() - 1 ==> #[trigger] varint_encode(v)[j] >= 0x80,
        varint_encode(v)[varint_encode(v).len() - 1] < 0x80,
    decreases v,
{
    if v >= 0x80 {
        lemma_varint_encode_shape(v / 0x80);
        let t = varint_encode(v / 0x80);
        assert(varint_encode(v) == seq![(v % 0x80 + 0x80) as u8] + t);
        if v / 0x80 >= 0x80 {
            assert(t.len() >= 2);
        }
        // the tail is at most four bytes: v / 0x80 < 2^25
        lemma_varint_len_bound(v / 0x80);
    }
}

/// A VarInt takes one to five bytes.
pub proof fn lemma_varint_bytes_len(v: i32)
    ensures
        1 <= varint_bytes(v).len() <= 5,
{
    lemma_varint_encode_shape(v as u32);
}

proof fn lemma_varint_len_bound(v: u32)
    ensures
        v < 0x4000 ==> varint_encode(v).len() <= 2,
        v < 0x20_0000 ==> varint_encode(v).len() <= 3,
        v < 0x1000_0000 ==> varint_encode(v).len() <= 4,
        varint_encode(v).len() <= 5,
    decreases v,
{
    if v >= 0x80 {
        lemma_varint_len_bound(v / 0x80);
    }
}

/// The payload of a byte put in front of `s`.
proof fn lemma_payload_cons(b: u8, s: Seq<u8>, n: nat)
    requires
        n <= s.len(),
    ensures
        varint_payload(seq![b] + s, n + 1) == (b % 0x80) + 0x80 * varint_payload(s, n),
    decreases n,
{
    let t = seq![b] + s;
    reveal(pow);
    if n == 0 {
        assert(t[0] == b);
        assert(varint_payload(t, 1) == varint_payload(t, 0) + (t[0] % 0x80) * pow(0x80, 0));
    } else {
        lemma_payload_cons(b, s, (n - 1) as nat);
        assert(t[n as int] == s[n - 1]);
        let p = pow(0x80, (n - 1) as nat);
        let c = s[n - 1] % 0x80;
        assert(pow(0x80, n) == 0x80 * p);
        assert(varint_payload(t, n + 1) == varint_payload(t, n) + c * pow(0x80, n));
        assert(varint_payload(s, n) == varint_payload(s, (n - 1) as nat) + c * p);
        assert(c * (0x80 * p) == 0x80 * (c * p)) by (nonlinear_arith);
    }
}

/// The payload only reads the first `n` bytes.
proof fn lemma_payload_prefix(s: Seq<u8>, rest: Seq<u8>, n: nat)
    requires
        n <= s.len(),
    ensures
        varint_payload(s + rest, n) == varint_payload(s, n),
    decreases n,
{
    if n > 0 {
        lemma_payload_prefix(s, rest, (n - 1) as nat);
        assert((s + rest)[n - 1] == s[n - 1]);
    }
}

proof fn lemma_encode_payload(v: u32)
    ensures
        varint_payload(varint_encode(v), varint_encode(v).len()) == v,
    decreases v,
{
    lemma_varint_encode_shape(v);
    reveal(pow);
    if v >= 0x80 {
        let t = varint_encode(v / 0x80);
        let b = (v % 0x80 + 0x80) as u8;
        lemma_encode_payload(v / 0x80);
        lemma_payload_cons(b, t, t.len());
        assert(varint_encode(v) == seq![b] + t);
        assert(b % 0x80 == v % 0x80);
    } else {
        let e = varint_encode(v);
        assert(e[0] == v as u8);
        assert(varint_payload(e, 1) == varint_payload(e, 0) + (e[0] % 0x80) * pow(0x80, 0));
    }
}

proof fn lemma_scan_done(s: Seq<u8>, k: nat, i: nat)
    requires
        1 <= k <= 5,
        k <= s.len(),
        i < k,
        forall|j: int| 0 <= j < k - 1 ==> #[trigger] s[j] >= 0x80,
        s[k - 1] < 0x80,
    ensures
        varint_scan(s, i) == VarIntScan::Done(k),
    decreases k - i,
{
    if i + 1 < k {
        lemma_scan_done(s, k, i + 1);
    }
}

/// Reading back the bytes of a VarInt, whatever follows them, gives the value
/// and the number of bytes.
pub proof fn lemma_varint_roundtrip(v: i32, rest: Seq<u8>)
    ensures
        varint_decode(varint_bytes(v) + rest) == Ok::<(i32, nat), PacketError>(
            (v, varint_bytes(v).len()),
        ),
{
    let e = varint_bytes(v);
    let s = e + rest;
    lemma_varint_encode_shape(v as u32);
    assert forall|j: int| 0 <= j < e.len() - 1 implies #[trigger] s[j] >= 0x80 by {
        assert(s[j] == e[j]);
    }
    lemma_scan_done(s, e.len(), 0);
    lemma_payload_prefix(e, rest, e.len());
    lemma_encode_payload(v as u32);
    assert((v as u32) as i32 == v) by (bit_vector);
}

/// A VarInt that reads from some bytes reads the same with more bytes after.
pub proof fn lemma_varint_decode_prefix(s: Seq<u8>, rest: Seq<u8>)
    requires
        varint_decode(s) is Ok,
    ensures
        varint_decode(s + rest) == varint_decode(s),
{
    let n = varint_decode(s).unwrap().1;
    lemma_scan_extends(s, rest, 0, n);
    lemma_payload_prefix(s, rest, n);
}

/// A VarInt read takes no more bytes than there are.
pub proof fn lemma_varint_decode_len(s: Seq<u8>)
    ensures
        varint_decode(s) matches Ok((_, n)) ==> 1 <= n <= s.len() && n <= 5,
{
    if varint_decode(s) is Ok {
        let n = varint_decode(s).unwrap().1;
        lemma_scan_extends(s, Seq::empty(), 0, n);
        lemma_scan_bounds(s, 0, n);
    }
}

proof fn lemma_scan_bounds(s: Seq<u8>, i: nat, n: nat)
    requires
        varint_scan(s, i) == VarIntScan::Done(n),
    ensures
        i < n <= 5,
    decreases 5 - i,
{
    if i < s.len() && i < 5 && s[i as int] >= 0x80 {
        lemma_scan_bounds(s, i + 1, n);
    }
}

proof fn lemma_scan_extends(s: Seq<u8>, rest: Seq<u8>, i: nat, n: nat)
    requires
        varint_scan(s, i) == VarIntScan::Done(n),
    ensures
        varint_scan(s + rest, i) == VarIntScan::Done(n),
        n <= s.len(),
    decreases 5 - i,
{
    if i < s.len() && i < 5 && s[i as int] >= 0x80 {
        lemma_scan_extends(s, rest, i + 1, n);
    }
    if i < s.len() {
        assert((s + rest)[i as int] == s[i as int]);
    }
}

proof fn lemma_payload_step(s: Seq<u8>, k: nat)
    requires
        k < 5,
        k < s.len(),
        0 <= varint_payload(s, k) < pow(0x80, k),
    ensures
        varint_payload(s, k + 1) == varint_payload(s, k) + (s[k as int] % 0x80) * pow(0x80, k),
        0 <= varint_payload(s, k + 1) < pow(0x80, k + 1),
{
    reveal(pow);
    let p = pow(0x80, k);
    let b = s[k as int] % 0x80;
    assert(0 <= b * p <= 0x7F * p) by (nonlinear_arith)
        requires
            0 <= b < 0x80,
            p > 0,
    ;
    vstd::arithmetic::power::lemma_pow_positive(0x80, k);
}

/// One step of gathering the groups into 32 bits: or-ing in a group of seven
/// bits above the `7 * k` bits gathered so far adds it, modulo 2^32.
proof fn lemma_or_group(r: u32, b: u8, k: u32, payload: int)
    requires
        k < 5,
        0 <= payload < pow(0x80, k as nat),
        r == payload % 0x1_0000_0000,
    ensures
        (r | (((b & 0x7F) as u32) << (7 * k))) == (payload + (b % 0x80) * pow(0x80, k as nat))
            % 0x1_0000_0000,
{
    lemma_pow128_values();
    assert(b & 0x7F == b % 0x80) by (bit_vector);
    let v = (b & 0x7F) as u32;
    assert(v < 0x80);
    if k == 0 {
        assert((r | (v << 0)) == r + v) by (bit_vector)
            requires
                r < 1,
                v < 0x80,
        ;
    } else if k == 1 {
        assert((r | (v << 7)) == r + v * 0x80) by (bit_vector)
            requires
                r < 0x80,
                v < 0x80,
        ;
    } else if k == 2 {
        assert((r | (v << 14)) == r + v * 0x4000) by (bit_vector)
            requires
                r < 0x4000,
                v < 0x80,
        ;
    } else if k == 3 {
        assert((r | (v << 21)) == r + v * 0x20_0000) by (bit_vector)
            requires
                r < 0x20_0000,
                v < 0x80,
        ;
    } else {
        assert((r | (v << 28)) == (r + v * 0x1000_0000) % 0x1_0000_0000) by (bit_vector)
            requires
                r < 0x1000_0000,
                v < 0x80,
        ;
    }
}

/// Reads a VarInt from the front of `src` and removes its bytes. On an error
/// `src` is left as it was.
pub fn read_var_int(src: &mut BytesMut) -> (r: Result<i32, PacketError>)
    ensures
        r == varint_value(bytes_mut_content(*old(src))),
        r is Ok ==> bytes_mut_content(*final(src)) == bytes_mut_content(*old(src)).skip(
            varint_decode(bytes_mut_content(*old(src))).unwrap().1 as int,
        ),
        r is Err ==> bytes_mut_content(*final(src)) == bytes_mut_content(*old(src)),
{
    let ghost s = bytes_mut_content(*src);
    let len = bm_len(src);
    let mut num_read: usize = 0;
    let mut result: u32 = 0;
    proof {
        lemma_pow128_values();
    }
    loop
        invariant_except_break
            num_read <= 5,
            num_read <= len,
            len == s.len(),
            s == bytes_mut_content(*src),
            varint_scan(s, 0) == varint_scan(s, num_read as nat),
            0 <= varint_payload(s, num_read as nat) < pow(0x80, num_read as nat),
            result == varint_payload(s, num_read as nat) % 0x1_0000_0000,
        ensures
            1 <= num_read <= 5,
            num_read <= len,
            s == bytes_mut_content(*src),
            varint_scan(s, 0) == VarIntScan::Done(num_read as nat),
            result == varint_payload(s, num_read as nat) % 0x1_0000_0000,
        decreases 5 - num_read,
    {
        if num_read >= len {
            return Err(PacketError::Eof);
        }
        if num_read == 5 {
            return Err(PacketError::VarIntTooBig);
        }
        let byte = bm_byte(src, num_read);
        proof {
            lemma_or_group(result, byte, num_read as u32, varint_payload(s, num_read as nat));
            lemma_payload_step(s, num_read as nat);
        }
        result = result | (((byte & 0x7F) as u32) << (7 * num_read as u32));
        num_read += 1;
        if byte & 0x80 == 0 {
            assert(byte & 0x80 == 0 ==> byte < 0x80) by (bit_vector);
            break ;
        }
        assert(byte & 0x80 != 0 ==> byte >= 0x80) by (bit_vector);
    }
    let _ = bm_split_to(src, num_read);
    Ok(result as i32)
}

/// Appends the VarInt bytes of `value` to `dst`.
pub fn write_var_int(dst: &mut BytesMut, value: i32)
    requires
        bytes_mut_content(*old(dst)).len() + varint_bytes(value).len() <= max_buffer_len(),
    ensures
        bytes_mut_content(*final(dst)) == bytes_mut_content(*old(dst)) + varint_bytes(value),
{
    let mut v: u32 = value as u32;
    proof {
        lemma_varint_encode_shape(v);
    }
    loop
        invariant
            bytes_mut_content(*old(dst)).len() + varint_bytes(value).len() <= max_buffer_len(),
            bytes_mut_content(*dst) + varint_encode(v) == bytes_mut_content(*old(dst))
                + varint_bytes(value),
        decreases v,
    {
        proof {
            lemma_varint_encode_shape(v);
            lemma_varint_encode_shape(value as u32);
            assert((bytes_mut_content(*dst) + varint_encode(v)).len() == bytes_mut_content(*dst).len()
                + varint_encode(v).len());
        }
        if (v & !0x7F) == 0 {
            assert((v & !0x7F) == 0 ==> v < 0x80) by (bit_vector);
            bm_put_u8(dst, v as u8);
            proof {
                reveal_with_fuel(be_bytes, 2);
            }
            assert(be_bytes(v as u8 as int, 1) =~= varint_encode(v));
            return ;
        }
        assert((v & !0x7F) != 0 ==> v >= 0x80) by (bit_vector);
        let byte = ((v & 0x7F) | 0x80) as u8;
        assert(((v & 0x7F) | 0x80) as u8 == (v % 0x80 + 0x80) as u8) by (bit_vector);
        bm_put_u8(dst, byte);
        proof {
            reveal_with_fuel(be_bytes, 2);
            assert(be_bytes(byte as int, 1) =~= seq![byte]);
        }
        let ghost old_v = v;
        assert(v >> 7 == v / 0x80) by (bit_vector);
        v = v >> 7;
        assert(varint_encode(old_v) == seq![byte] + varint_encode(v));
    }
}

} // verus!

verus! {

impl View for EncodedVarInt {
    type V = i32;

    open spec fn view(&self) -> i32 {
        self.0
    }
}

impl crate::codecs::base::MCEncode for EncodedVarInt {
    open spec fn spec_encode(v: i32) -> (Result<(), PacketError>, Seq<u8>) {
        (Ok(()), varint_bytes(v))
    }

    fn encode(&self, dst: &mut crate::proto::packet_bytes::PacketBytes) -> (r: Result<
        (),
        PacketError,
    >) {
        dst.put_var_int(self.0)?;
        Ok(())
    }
}

impl crate::codecs::base::MCDecode for EncodedVarInt {
    open spec fn spec_decode(s: Seq<u8>) -> (Result<i32, PacketError>, nat) {
        match varint_decode(s) {
            Ok((v, n)) => (Ok(v), n),
            Err(e) => (Err(e), 0),
        }
    }

    proof fn lemma_decode_len(s: Seq<u8>) {
        lemma_varint_decode_len(s);
    }

    fn decode(src: &mut crate::proto::packet_bytes::PacketBytes) -> (r: Result<Self, PacketError>) {
        match src.get_var_int() {
            Ok(v) => Ok(Self(v)),
            Err(e) => Err(e),
        }
    }
}

impl crate::codecs::base::MCCodec for EncodedVarInt {
    open spec fn spec_roundtrips(v: i32) -> bool {
        true
    }

    proof fn lemma_roundtrip(v: i32, rest: Seq<u8>) {
        lemma_varint_roundtrip(v, rest);
    }
}

} // verus!
