//! The growable byte buffer of the `bytes` crate, as this library uses it.
use bytes::{Buf, BufMut, BytesMut, TryGetError};
use vstd::prelude::*;

verus! {

#[verifier::external_type_specification]
#[verifier::external_body]
pub struct ExBytesMut(BytesMut);

#[verifier::external_type_specification]
#[verifier::external_body]
pub struct ExTryGetError(TryGetError);

/// The bytes that a `BytesMut` holds, first to last.
pub uninterp spec fn bytes_mut_content(b: BytesMut) -> Seq<u8>;

/// The largest size a buffer can grow to without its allocation failing.
pub open spec fn max_buffer_len() -> int {
    isize::MAX as int
}

/// The `n` low bytes of `v` in two's complement, most significant first.
pub open spec fn be_bytes(v: int, n: nat) -> Seq<u8>
    decreases n,
{
    if n == 0 {
        Seq::empty()
    } else {
        be_bytes(v / 256, (n - 1) as nat).push((v % 256) as u8)
    }
}

/// The unsigned number that bytes spell, most significant first.
pub open spec fn be_value(s: Seq<u8>) -> int
    decreases s.len(),
{
    if s.len() == 0 {
        0
    } else {
        be_value(s.drop_last()) * 256 + s.last()
    }
}

/// `BytesMut::new`: an empty buffer.
#[verifier::external_body]
pub(crate) fn bm_new() -> (r: BytesMut)
    ensures
        bytes_mut_content(r) == Seq::<u8>::empty(),
{
    BytesMut::new()
}

/// `BytesMut::from(&[u8])`: a buffer holding a copy of the slice.
#[verifier::external_body]
pub(crate) fn bm_from_slice(s: &[u8]) -> (r: BytesMut)
    ensures
        bytes_mut_content(r) == s@,
{
    BytesMut::from(s)
}

/// `BytesMut::len`: the number of bytes held.
#[verifier::external_body]
pub(crate) fn bm_len(b: &BytesMut) -> (r: usize)
    ensures
        r == bytes_mut_content(*b).len(),
{
    b.len()
}

/// Indexing through `Deref<Target = [u8]>`: the byte at `i`.
#[verifier::external_body]
pub(crate) fn bm_byte(b: &BytesMut, i: usize) -> (r: u8)
    requires
        i < bytes_mut_content(*b).len(),
    ensures
        r == bytes_mut_content(*b)[i as int],
{
    b[i]
}

/// `<BytesMut as Deref>::deref`: the bytes held, as a slice.
#[verifier::external_body]
pub(crate) fn bm_as_slice(b: &BytesMut) -> (r: &[u8])
    ensures
        r@ == bytes_mut_content(*b),
{
    b
}

/// `<BytesMut as Deref>::deref` then `to_vec`: a copy of the bytes held.
#[verifier::external_body]
pub(crate) fn bm_to_vec(b: &BytesMut) -> (r: Vec<u8>)
    ensures
        r@ == bytes_mut_content(*b),
{
    b.to_vec()
}

/// `BytesMut::extend_from_slice`: appends the slice; it panics when the new
/// size overflows, which `requires` rules out.
#[verifier::external_body]
pub(crate) fn bm_extend_from_slice(b: &mut BytesMut, s: &[u8])
    requires
        bytes_mut_content(*old(b)).len() + s@.len() <= max_buffer_len(),
    ensures
        bytes_mut_content(*final(b)) == bytes_mut_content(*old(b)) + s@,
{
    b.extend_from_slice(s)
}

/// `BytesMut::split_to`: removes the first `at` bytes and returns them; it
/// panics when `at` is past the end, which `requires` rules out.
#[verifier::external_body]
pub(crate) fn bm_split_to(b: &mut BytesMut, at: usize) -> (r: BytesMut)
    requires
        at <= bytes_mut_content(*old(b)).len(),
    ensures
        bytes_mut_content(r) == bytes_mut_content(*old(b)).take(at as int),
        bytes_mut_content(*final(b)) == bytes_mut_content(*old(b)).skip(at as int),
{
    b.split_to(at)
}

/// `BytesMut::split`: removes all the bytes and returns them.
#[verifier::external_body]
pub(crate) fn bm_split(b: &mut BytesMut) -> (r: BytesMut)
    ensures
        bytes_mut_content(r) == bytes_mut_content(*old(b)),
        bytes_mut_content(*final(b)) == Seq::<u8>::empty(),
{
    b.split()
}

/// `Buf::advance`: drops the first `cnt` bytes; it panics when `cnt` is past
/// the end, which `requires` rules out.
#[verifier::external_body]
pub(crate) fn bm_advance(b: &mut BytesMut, cnt: usize)
    requires
        cnt <= bytes_mut_content(*old(b)).len(),
    ensures
        bytes_mut_content(*final(b)) == bytes_mut_content(*old(b)).skip(cnt as int),
{
    b.advance(cnt)
}

/// `BufMut::put_u8`: appends the byte.
#[verifier::external_body]
pub(crate) fn bm_put_u8(b: &mut BytesMut, v: u8)
    requires
        bytes_mut_content(*old(b)).len() + 1 <= max_buffer_len(),
    ensures
        bytes_mut_content(*final(b)) == bytes_mut_content(*old(b)) + be_bytes(v as int, 1),
{
    b.put_u8(v)
}

/// `BufMut::put_i8`: appends the byte of the two's complement value.
#[verifier::external_body]
pub(crate) fn bm_put_i8(b: &mut BytesMut, v: i8)
    requires
        bytes_mut_content(*old(b)).len() + 1 <= max_buffer_len(),
    ensures
        bytes_mut_content(*final(b)) == bytes_mut_content(*old(b)) + be_bytes(v as u8 as int, 1),
{
    b.put_i8(v)
}

/// `BufMut::put_u16`: appends the two bytes, big-endian.
#[verifier::external_body]
pub(crate) fn bm_put_u16(b: &mut BytesMut, v: u16)
    requires
        bytes_mut_content(*old(b)).len() + 2 <= max_buffer_len(),
    ensures
        bytes_mut_content(*final(b)) == bytes_mut_content(*old(b)) + be_bytes(v as int, 2),
{
    b.put_u16(v)
}

/// `BufMut::put_i16`: appends the two bytes of the two's complement value, big-endian.
#[verifier::external_body]
pub(crate) fn bm_put_i16(b: &mut BytesMut, v: i16)
    requires
        bytes_mut_content(*old(b)).len() + 2 <= max_buffer_len(),
    ensures
        bytes_mut_content(*final(b)) == bytes_mut_content(*old(b)) + be_bytes(v as u16 as int, 2),
{
    b.put_i16(v)
}

/// `BufMut::put_u32`: appends the four bytes, big-endian.
#[verifier::external_body]
pub(crate) fn bm_put_u32(b: &mut BytesMut, v: u32)
    requires
        bytes_mut_content(*old(b)).len() + 4 <= max_buffer_len(),
    ensures
        bytes_mut_content(*final(b)) == bytes_mut_content(*old(b)) + be_bytes(v as int, 4),
{
    b.put_u32(v)
}

/// `BufMut::put_i32`: appends the four bytes of the two's complement value, big-endian.
#[verifier::external_body]
pub(crate) fn bm_put_i32(b: &mut BytesMut, v: i32)
    requires
        bytes_mut_content(*old(b)).len() + 4 <= max_buffer_len(),
    ensures
        bytes_mut_content(*final(b)) == bytes_mut_content(*old(b)) + be_bytes(v as u32 as int, 4),
{
    b.put_i32(v)
}

/// `BufMut::put_u64`: appends the eight bytes, big-endian.
#[verifier::external_body]
pub(crate) fn bm_put_u64(b: &mut BytesMut, v: u64)
    requires
        bytes_mut_content(*old(b)).len() + 8 <= max_buffer_len(),
    ensures
        bytes_mut_content(*final(b)) == bytes_mut_content(*old(b)) + be_bytes(v as int, 8),
{
    b.put_u64(v)
}

/// `BufMut::put_i64`: appends the eight bytes of the two's complement value, big-endian.
#[verifier::external_body]
pub(crate) fn bm_put_i64(b: &mut BytesMut, v: i64)
    requires
        bytes_mut_content(*old(b)).len() + 8 <= max_buffer_len(),
    ensures
        bytes_mut_content(*final(b)) == bytes_mut_content(*old(b)) + be_bytes(v as u64 as int, 8),
{
    b.put_i64(v)
}

/// `Buf::try_get_u8`: takes the first byte; with none left it fails and
/// leaves the buffer as it was.
#[verifier::external_body]
pub(crate) fn bm_try_get_u8(b: &mut BytesMut) -> (r: Result<u8, TryGetError>)
    ensures
        bytes_mut_content(*old(b)).len() >= 1 ==> r == Ok::<u8, TryGetError>(
            be_value(bytes_mut_content(*old(b)).take(1)) as u8,
        ) && bytes_mut_content(*final(b)) == bytes_mut_content(*old(b)).skip(1),
        bytes_mut_content(*old(b)).len() < 1 ==> r is Err && bytes_mut_content(*final(b))
            == bytes_mut_content(*old(b)),
{
    b.try_get_u8()
}

/// `Buf::try_get_i8`: takes the first byte as a two's complement value; with
/// none left it fails and leaves the buffer as it was.
#[verifier::external_body]
pub(crate) fn bm_try_get_i8(b: &mut BytesMut) -> (r: Result<i8, TryGetError>)
    ensures
        bytes_mut_content(*old(b)).len() >= 1 ==> r == Ok::<i8, TryGetError>(
            be_value(bytes_mut_content(*old(b)).take(1)) as u8 as i8,
        ) && bytes_mut_content(*final(b)) == bytes_mut_content(*old(b)).skip(1),
        bytes_mut_content(*old(b)).len() < 1 ==> r is Err && bytes_mut_content(*final(b))
            == bytes_mut_content(*old(b)),
{
    b.try_get_i8()
}

/// `Buf::try_get_u16`: takes the first two bytes, big-endian; with fewer left
/// it fails and leaves the buffer as it was.
#[verifier::external_body]
pub(crate) fn bm_try_get_u16(b: &mut BytesMut) -> (r: Result<u16, TryGetError>)
    ensures
        bytes_mut_content(*old(b)).len() >= 2 ==> r == Ok::<u16, TryGetError>(
            be_value(bytes_mut_content(*old(b)).take(2)) as u16,
        ) && bytes_mut_content(*final(b)) == bytes_mut_content(*old(b)).skip(2),
        bytes_mut_content(*old(b)).len() < 2 ==> r is Err && bytes_mut_content(*final(b))
            == bytes_mut_content(*old(b)),
{
    b.try_get_u16()
}

/// `Buf::try_get_i16`: takes the first two bytes as a big-endian two's
/// complement value; with fewer left it fails and leaves the buffer as it was.
#[verifier::external_body]
pub(crate) fn bm_try_get_i16(b: &mut BytesMut) -> (r: Result<i16, TryGetError>)
    ensures
        bytes_mut_content(*old(b)).len() >= 2 ==> r == Ok::<i16, TryGetError>(
            be_value(bytes_mut_content(*old(b)).take(2)) as u16 as i16,
        ) && bytes_mut_content(*final(b)) == bytes_mut_content(*old(b)).skip(2),
        bytes_mut_content(*old(b)).len() < 2 ==> r is Err && bytes_mut_content(*final(b))
            == bytes_mut_content(*old(b)),
{
    b.try_get_i16()
}

/// `Buf::try_get_u32`: takes the first four bytes, big-endian; with fewer
/// left it fails and leaves the buffer as it was.
#[verifier::external_body]
pub(crate) fn bm_try_get_u32(b: &mut BytesMut) -> (r: Result<u32, TryGetError>)
    ensures
        bytes_mut_content(*old(b)).len() >= 4 ==> r == Ok::<u32, TryGetError>(
            be_value(bytes_mut_content(*old(b)).take(4)) as u32,
        ) && bytes_mut_content(*final(b)) == bytes_mut_content(*old(b)).skip(4),
        bytes_mut_content(*old(b)).len() < 4 ==> r is Err && bytes_mut_content(*final(b))
            == bytes_mut_content(*old(b)),
{
    b.try_get_u32()
}

/// `Buf::try_get_i32`: takes the first four bytes as a big-endian two's
/// complement value; with fewer left it fails and leaves the buffer as it was.
#[verifier::external_body]
pub(crate) fn bm_try_get_i32(b: &mut BytesMut) -> (r: Result<i32, TryGetError>)
    ensures
        bytes_mut_content(*old(b)).len() >= 4 ==> r == Ok::<i32, TryGetError>(
            be_value(bytes_mut_content(*old(b)).take(4)) as u32 as i32,
        ) && bytes_mut_content(*final(b)) == bytes_mut_content(*old(b)).skip(4),
        bytes_mut_content(*old(b)).len() < 4 ==> r is Err && bytes_mut_content(*final(b))
            == bytes_mut_content(*old(b)),
{
    b.try_get_i32()
}

/// `Buf::try_get_u64`: takes the first eight bytes, big-endian; with fewer
/// left it fails and leaves the buffer as it was.
#[verifier::external_body]
pub(crate) fn bm_try_get_u64(b: &mut BytesMut) -> (r: Result<u64, TryGetError>)
    ensures
        bytes_mut_content(*old(b)).len() >= 8 ==> r == Ok::<u64, TryGetError>(
            be_value(bytes_mut_content(*old(b)).take(8)) as u64,
        ) && bytes_mut_content(*final(b)) == bytes_mut_content(*old(b)).skip(8),
        bytes_mut_content(*old(b)).len() < 8 ==> r is Err && bytes_mut_content(*final(b))
            == bytes_mut_content(*old(b)),
{
    b.try_get_u64()
}

/// `Buf::try_get_i64`: takes the first eight bytes as a big-endian two's
/// complement value; with fewer left it fails and leaves the buffer as it was.
#[verifier::external_body]
pub(crate) fn bm_try_get_i64(b: &mut BytesMut) -> (r: Result<i64, TryGetError>)
    ensures
        bytes_mut_content(*old(b)).len() >= 8 ==> r == Ok::<i64, TryGetError>(
            be_value(bytes_mut_content(*old(b)).take(8)) as u64 as i64,
        ) && bytes_mut_content(*final(b)) == bytes_mut_content(*old(b)).skip(8),
        bytes_mut_content(*old(b)).len() < 8 ==> r is Err && bytes_mut_content(*final(b))
            == bytes_mut_content(*old(b)),
{
    b.try_get_i64()
}

} // verus!

verus! {

/// `be_bytes` makes exactly `n` bytes.
pub proof fn lemma_be_bytes_len(v: int, n: nat)
    ensures
        be_bytes(v, n).len() == n,
    decreases n,
{
    if n > 0 {
        lemma_be_bytes_len(v / 256, (n - 1) as nat);
    }
}

/// Reading back the bytes of a number that fits in `n` bytes gives the number.
pub proof fn lemma_be_roundtrip(v: int, n: nat)
    requires
        0 <= v < vstd::arithmetic::power::pow(256, n),
    ensures
        be_value(be_bytes(v, n)) == v,
    decreases n,
{
    reveal(vstd::arithmetic::power::pow);
    if n > 0 {
        let p = vstd::arithmetic::power::pow(256, (n - 1) as nat);
        assert(v / 256 < p) by (nonlinear_arith)
            requires
                v < 256 * p,
                0 <= v,
        ;
        lemma_be_roundtrip(v / 256, (n - 1) as nat);
        let s = be_bytes(v, n);
        assert(s.drop_last() == be_bytes(v / 256, (n - 1) as nat));
    }
}

/// The first `n` bytes of `be_bytes(v, n) + rest` are `be_bytes(v, n)`.
pub proof fn lemma_be_prefix(v: int, n: nat, rest: Seq<u8>)
    ensures
        (be_bytes(v, n) + rest).take(n as int) == be_bytes(v, n),
        (be_bytes(v, n) + rest).skip(n as int) == rest,
{
    lemma_be_bytes_len(v, n);
    assert((be_bytes(v, n) + rest).take(n as int) =~= be_bytes(v, n));
    assert((be_bytes(v, n) + rest).skip(n as int) =~= rest);
}

/// The powers of 256 that the fixed-size integers use.
pub proof fn lemma_pow256_values()
    ensures
        vstd::arithmetic::power::pow(256, 1) == 0x100,
        vstd::arithmetic::power::pow(256, 2) == 0x1_0000,
        vstd::arithmetic::power::pow(256, 4) == 0x1_0000_0000,
        vstd::arithmetic::power::pow(256, 8) == 0x1_0000_0000_0000_0000,
{
    reveal_with_fuel(vstd::arithmetic::power::pow, 9);
}

/// The bytes of `v` in `a + b` bytes are its high part in `a` bytes, then its
/// low part in `b` bytes.
pub proof fn lemma_be_split(v: int, a: nat, b: nat)
    requires
        0 <= v,
    ensures
        be_bytes(v, a + b) == be_bytes(v / vstd::arithmetic::power::pow(256, b), a) + be_bytes(
            v % vstd::arithmetic::power::pow(256, b),
            b,
        ),
    decreases b,
{
    reveal(vstd::arithmetic::power::pow);
    if b == 0 {
        assert(be_bytes(v, a) + be_bytes(v % 1, 0) =~= be_bytes(v, a));
    } else {
        let p = vstd::arithmetic::power::pow(256, (b - 1) as nat);
        vstd::arithmetic::power::lemma_pow_positive(256, (b - 1) as nat);
        lemma_be_split(v / 256, a, (b - 1) as nat);
        assert(be_bytes(v, a + b) == be_bytes(v / 256, (a + b - 1) as nat).push((v % 256) as u8));
        vstd::arithmetic::div_mod::lemma_div_denominator(v, 256, p);
        vstd::arithmetic::div_mod::lemma_breakdown(v, 256, p);
        let m = v % (256 * p);
        let q = (v / 256) % p;
        assert(m == 256 * q + v % 256);
        assert(0 <= v % 256 < 256);
        vstd::arithmetic::div_mod::lemma_div_multiples_vanish_fancy(q, v % 256, 256);
        vstd::arithmetic::div_mod::lemma_mod_multiples_vanish(q, v % 256, 256);
        assert(m / 256 == q);
        assert(m % 256 == v % 256);
        assert(vstd::arithmetic::power::pow(256, b) == 256 * p);
        assert(be_bytes(m, b) == be_bytes(m / 256, (b - 1) as nat).push((m % 256) as u8));
        assert(be_bytes(v, a + b) =~= be_bytes(v / (256 * p), a) + be_bytes(m, b));
    }
}

/// The value of two byte strings one after the other.
pub proof fn lemma_be_value_concat(x: Seq<u8>, y: Seq<u8>)
    ensures
        be_value(x + y) == be_value(x) * vstd::arithmetic::power::pow(256, y.len()) + be_value(y),
    decreases y.len(),
{
    reveal(vstd::arithmetic::power::pow);
    if y.len() == 0 {
        assert(x + y =~= x);
    } else {
        lemma_be_value_concat(x, y.drop_last());
        assert((x + y).drop_last() =~= x + y.drop_last());
        assert((x + y).last() == y.last());
        let p = vstd::arithmetic::power::pow(256, (y.len() - 1) as nat);
        assert(be_value(x) * (256 * p) == (be_value(x) * p) * 256) by (nonlinear_arith);
    }
}

/// A byte string is worth less than 256 to the power of its length.
pub proof fn lemma_be_value_bound(s: Seq<u8>)
    ensures
        0 <= be_value(s) < vstd::arithmetic::power::pow(256, s.len()),
    decreases s.len(),
{
    reveal(vstd::arithmetic::power::pow);
    if s.len() > 0 {
        lemma_be_value_bound(s.drop_last());
        let p = vstd::arithmetic::power::pow(256, (s.len() - 1) as nat);
        let w = be_value(s.drop_last());
        assert(w * 256 + s.last() < 256 * p) by (nonlinear_arith)
            requires
                0 <= w < p,
                s.last() < 256,
        ;
    }
}

} // verus!
