//! Primitive wire codec: fixed-width big-endian integers, booleans,
//! length-prefixed UTF-8 strings and byte sequences, and trailing byte
//! runs. Readers take a byte slice and a cursor and return the decoded
//! value with the new cursor; on failure the cursor is unchanged.

use vstd::prelude::*;

use vstd::slice::{slice_subrange, slice_to_vec};
use vstd::utf8::{decode_utf8, encode_utf8, valid_utf8};

use crate::error::Error;
use crate::varint::{
    i32_bits, i64_bits, i64_of_bits, i64_to_u64, varint_bytes, varint_dec32, VarInt,
};

verus! {

/// 256^k, the weight of the k-th byte.
pub open spec fn pow256(k: nat) -> nat
    decreases k,
{
    if k == 0 {
        1
    } else {
        256 * pow256((k - 1) as nat)
    }
}

/// The `k`-byte big-endian form of `v`.
pub open spec fn be_bytes(v: nat, k: nat) -> Seq<u8>
    decreases k,
{
    if k == 0 {
        Seq::empty()
    } else {
        be_bytes(v / 256, (k - 1) as nat) + seq![(v % 256) as u8]
    }
}

/// The integer a big-endian byte run denotes.
pub open spec fn be_val(s: Seq<u8>) -> nat
    decreases s.len(),
{
    if s.len() == 0 {
        0
    } else {
        256 * be_val(s.drop_last()) + s.last() as nat
    }
}

/// Concrete powers of 256 the codecs need.
pub proof fn lemma_pow256_bounds()
    ensures
        pow256(0) == 1,
        pow256(1) == 0x100,
        pow256(2) == 0x1_0000,
        pow256(4) == 0x1_0000_0000,
        pow256(7) == 0x100_0000_0000_0000,
        pow256(8) == 0x1_0000_0000_0000_0000,
{
    reveal_with_fuel(pow256, 10);
}

/// Powers of 256 do not decrease.
pub proof fn lemma_pow256_mono(a: nat, b: nat)
    requires
        a <= b,
    ensures
        pow256(a) <= pow256(b),
    decreases b,
{
    if a < b {
        lemma_pow256_mono(a, (b - 1) as nat);
        assert(256 * pow256((b - 1) as nat) >= pow256((b - 1) as nat)) by (nonlinear_arith);
    }
}

/// The value of `k` bytes is below 256^k.
pub proof fn lemma_be_val_bound(s: Seq<u8>)
    ensures
        be_val(s) < pow256(s.len()),
    decreases s.len(),
{
    if s.len() > 0 {
        lemma_be_val_bound(s.drop_last());
        assert(256 * be_val(s.drop_last()) <= 256 * (pow256((s.len() - 1) as nat) - 1))
            by (nonlinear_arith)
            requires
                be_val(s.drop_last()) <= pow256((s.len() - 1) as nat) - 1,
        ;
    }
}

/// Reading back big-endian bytes yields the written value.
pub proof fn lemma_be_roundtrip(v: nat, k: nat)
    requires
        v < pow256(k),
    ensures
        be_bytes(v, k).len() == k,
        be_val(be_bytes(v, k)) == v,
    decreases k,
{
    if k == 0 {
    } else {
        assert(pow256(k) == 256 * pow256((k - 1) as nat));
        assert(v / 256 < pow256((k - 1) as nat)) by (nonlinear_arith)
            requires
                v < 256 * pow256((k - 1) as nat),
        ;
        lemma_be_roundtrip(v / 256, (k - 1) as nat);
        let e = be_bytes(v, k);
        let t = be_bytes(v / 256, (k - 1) as nat);
        assert(e == t + seq![(v % 256) as u8]);
        assert(e.drop_last() =~= t);
        assert(e.last() == (v % 256) as u8);
        assert(256 * (v / 256) + v % 256 == v) by (nonlinear_arith);
    }
}

/// Appends the `width`-byte big-endian form of `v` to `out`.
pub fn write_be(out: &mut Vec<u8>, v: u64, width: usize)
    requires
        (v as nat) < pow256(width as nat),
    ensures
        final(out)@ == old(out)@ + be_bytes(v as nat, width as nat),
    decreases width,
{
    if width > 0 {
        proof {
            assert(pow256(width as nat) == 256 * pow256((width - 1) as nat));
            assert(v as nat / 256 < pow256((width - 1) as nat)) by (nonlinear_arith)
                requires
                    (v as nat) < 256 * pow256((width - 1) as nat),
            ;
        }
        write_be(out, v / 256, width - 1);
        out.push((v % 256) as u8);
        proof {
            assert(out@ =~= old(out)@ + be_bytes(v as nat, width as nat));
        }
    } else {
        proof {
            assert(out@ =~= old(out)@ + be_bytes(v as nat, 0));
        }
    }
}

/// Reads `width` big-endian bytes at `pos`, or fails without consuming
/// anything when fewer are available.
pub fn read_be(data: &[u8], pos: usize, width: usize) -> (r: Result<(u64, usize), Error>)
    requires
        width <= 8,
        pos <= data@.len(),
    ensures
        match r {
            Ok(p) => pos + width <= data@.len() && p.0 == be_val(
                data@.subrange(pos as int, pos + width),
            ) && p.1 == pos + width,
            Err(e) => pos + width > data@.len() && e == Error::UnexpectedEof,
        },
{
    let n = data.len();
    if n - pos < width {
        return Err(Error::UnexpectedEof);
    }
    let end = pos + width;
    let mut v: u64 = 0;
    let mut idx = pos;
    while idx < end
        invariant
            pos <= idx <= end,
            end == pos + width,
            width <= 8,
            end <= data@.len(),
            v == be_val(data@.subrange(pos as int, idx as int)),
        decreases end - idx,
    {
        proof {
            lemma_be_val_bound(data@.subrange(pos as int, idx as int));
            lemma_pow256_mono((idx - pos) as nat, 7);
            lemma_pow256_bounds();
            assert(v * 256 <= (pow256(7) - 1) * 256) by (nonlinear_arith)
                requires
                    v <= pow256(7) - 1,
            ;
            assert(data@.subrange(pos as int, idx + 1).drop_last() =~= data@.subrange(
                pos as int,
                idx as int,
            ));
            assert(data@.subrange(pos as int, idx + 1).last() == data@[idx as int]);
        }
        v = v * 256 + data[idx] as u64;
        idx = idx + 1;
    }
    Ok((v, end))
}

/// The unsigned 16-bit reinterpretation of `v` (two's complement).
pub open spec fn i16_bits(v: i16) -> nat {
    if v >= 0 {
        v as nat
    } else {
        (v + 0x1_0000) as nat
    }
}

/// The signed value whose 16-bit two's complement pattern is `n`.
pub open spec fn i16_of_bits(n: nat) -> i16
    recommends
        n < 0x1_0000,
{
    if n % 0x1_0000 < 0x8000 {
        (n % 0x1_0000) as i16
    } else {
        (n % 0x1_0000 - 0x1_0000) as i16
    }
}

/// The unsigned 8-bit reinterpretation of `v` (two's complement).
pub open spec fn i8_bits(v: i8) -> nat {
    if v >= 0 {
        v as nat
    } else {
        (v + 0x100) as nat
    }
}

/// The signed value whose 8-bit two's complement pattern is `n`.
pub open spec fn i8_of_bits(n: nat) -> i8
    recommends
        n < 0x100,
{
    if n % 0x100 < 0x80 {
        (n % 0x100) as i8
    } else {
        (n % 0x100 - 0x100) as i8
    }
}

/// The single wire byte of a boolean.
pub open spec fn bool_bytes(v: bool) -> Seq<u8> {
    if v {
        seq![1u8]
    } else {
        seq![0u8]
    }
}

/// The 2-byte big-endian form of `v`.
pub open spec fn u16_bytes(v: u16) -> Seq<u8> {
    be_bytes(v as nat, 2)
}

/// The 2-byte big-endian form of `v` (two's complement).
pub open spec fn i16_bytes(v: i16) -> Seq<u8> {
    be_bytes(i16_bits(v), 2)
}

/// The 4-byte big-endian form of `v` (two's complement).
pub open spec fn i32_be_bytes(v: i32) -> Seq<u8> {
    be_bytes(i32_bits(v), 4)
}

/// The 8-byte big-endian form of `v` (two's complement).
pub open spec fn i64_bytes(v: i64) -> Seq<u8> {
    be_bytes(i64_bits(v), 8)
}

/// Appends the wire byte of a boolean: `0x01` for true, `0x00` for false.
pub fn write_bool(out: &mut Vec<u8>, v: bool)
    ensures
        final(out)@ == old(out)@ + bool_bytes(v),
{
    out.push(if v {
        1u8
    } else {
        0u8
    });
    proof {
        assert(out@ =~= old(out)@ + bool_bytes(v));
    }
}

/// Reads a boolean byte: exactly `0x01` decodes to true.
pub fn read_bool(data: &[u8], pos: usize) -> (r: Result<(bool, usize), Error>)
    requires
        pos <= data@.len(),
    ensures
        match r {
            Ok(p) => pos + 1 <= data@.len() && p.0 == (data@[pos as int] == 1u8) && p.1 == pos + 1,
            Err(e) => pos + 1 > data@.len() && e == Error::UnexpectedEof,
        },
{
    if pos >= data.len() {
        return Err(Error::UnexpectedEof);
    }
    Ok((data[pos] == 1, pos + 1))
}

/// Appends one raw byte.
pub fn write_u8(out: &mut Vec<u8>, v: u8)
    ensures
        final(out)@ == old(out)@ + seq![v],
{
    out.push(v);
    proof {
        assert(out@ =~= old(out)@ + seq![v]);
    }
}

/// Reads one raw byte.
pub fn read_u8(data: &[u8], pos: usize) -> (r: Result<(u8, usize), Error>)
    requires
        pos <= data@.len(),
    ensures
        match r {
            Ok(p) => pos + 1 <= data@.len() && p.0 == data@[pos as int] && p.1 == pos + 1,
            Err(e) => pos + 1 > data@.len() && e == Error::UnexpectedEof,
        },
{
    if pos >= data.len() {
        return Err(Error::UnexpectedEof);
    }
    Ok((data[pos], pos + 1))
}

/// Appends a 2-byte big-endian unsigned integer.
pub fn write_u16(out: &mut Vec<u8>, v: u16)
    ensures
        final(out)@ == old(out)@ + u16_bytes(v),
{
    proof {
        lemma_pow256_bounds();
    }
    write_be(out, v as u64, 2);
}

/// Reads a 2-byte big-endian unsigned integer.
pub fn read_u16(data: &[u8], pos: usize) -> (r: Result<(u16, usize), Error>)
    requires
        pos <= data@.len(),
    ensures
        match r {
            Ok(p) => pos + 2 <= data@.len() && p.0 == be_val(data@.subrange(pos as int, pos + 2))
                && p.1 == pos + 2,
            Err(e) => pos + 2 > data@.len() && e == Error::UnexpectedEof,
        },
{
    proof {
        lemma_pow256_bounds();
    }
    match read_be(data, pos, 2) {
        Ok((v, n)) => {
            proof {
                lemma_be_val_bound(data@.subrange(pos as int, pos + 2));
            }
            Ok(((v as u16), n))
        },
        Err(e) => Err(e),
    }
}

/// Appends an 8-byte big-endian signed integer in two's complement.
pub fn write_i64(out: &mut Vec<u8>, v: i64)
    ensures
        final(out)@ == old(out)@ + i64_bytes(v),
{
    proof {
        lemma_pow256_bounds();
    }
    write_be(out, i64_to_u64(v), 8);
}

/// Reads an 8-byte big-endian signed integer in two's complement.
pub fn read_i64(data: &[u8], pos: usize) -> (r: Result<(i64, usize), Error>)
    requires
        pos <= data@.len(),
    ensures
        match r {
            Ok(p) => pos + 8 <= data@.len() && p.0 == i64_of_bits(
                be_val(data@.subrange(pos as int, pos + 8)),
            ) && p.1 == pos + 8,
            Err(e) => pos + 8 > data@.len() && e == Error::UnexpectedEof,
        },
{
    proof {
        lemma_pow256_bounds();
    }
    match read_be(data, pos, 8) {
        Ok((v, n)) => {
            proof {
                lemma_be_val_bound(data@.subrange(pos as int, pos + 8));
            }
            let out = if v < 0x8000_0000_0000_0000 {
                v as i64
            } else {
                (v as i128 - 0x1_0000_0000_0000_0000i128) as i64
            };
            Ok((out, n))
        },
        Err(e) => Err(e),
    }
}

/// Appends a 1-byte signed integer in two's complement.
pub fn write_i8(out: &mut Vec<u8>, v: i8)
    ensures
        final(out)@ == old(out)@ + be_bytes(i8_bits(v), 1),
{
    proof {
        lemma_pow256_bounds();
    }
    let bits: u8 = if v >= 0 {
        v as u8
    } else {
        (v as i16 + 0x100i16) as u8
    };
    write_be(out, bits as u64, 1);
}

/// Reads a 1-byte signed integer in two's complement.
pub fn read_i8(data: &[u8], pos: usize) -> (r: Result<(i8, usize), Error>)
    requires
        pos <= data@.len(),
    ensures
        match r {
            Ok(p) => pos + 1 <= data@.len() && p.0 == i8_of_bits(data@[pos as int] as nat) && p.1
                == pos + 1,
            Err(e) => pos + 1 > data@.len() && e == Error::UnexpectedEof,
        },
{
    if pos >= data.len() {
        return Err(Error::UnexpectedEof);
    }
    let b = data[pos];
    let out = if b < 0x80 {
        b as i8
    } else {
        (b as i16 - 0x100i16) as i8
    };
    Ok((out, pos + 1))
}

/// Appends a 2-byte big-endian signed integer in two's complement.
pub fn write_i16(out: &mut Vec<u8>, v: i16)
    ensures
        final(out)@ == old(out)@ + i16_bytes(v),
{
    proof {
        lemma_pow256_bounds();
    }
    let bits: u16 = if v >= 0 {
        v as u16
    } else {
        (v as i32 + 0x1_0000i32) as u16
    };
    write_be(out, bits as u64, 2);
}

/// Reads a 2-byte big-endian signed integer in two's complement.
pub fn read_i16(data: &[u8], pos: usize) -> (r: Result<(i16, usize), Error>)
    requires
        pos <= data@.len(),
    ensures
        match r {
            Ok(p) => pos + 2 <= data@.len() && p.0 == i16_of_bits(
                be_val(data@.subrange(pos as int, pos + 2)),
            ) && p.1 == pos + 2,
            Err(e) => pos + 2 > data@.len() && e == Error::UnexpectedEof,
        },
{
    proof {
        lemma_pow256_bounds();
    }
    match read_be(data, pos, 2) {
        Ok((v, n)) => {
            proof {
                lemma_be_val_bound(data@.subrange(pos as int, pos + 2));
            }
            let out = if v < 0x8000 {
                v as i16
            } else {
                (v as i32 - 0x1_0000i32) as i16
            };
            Ok((out, n))
        },
        Err(e) => Err(e),
    }
}

/// Appends a 4-byte big-endian signed integer in two's complement.
pub fn write_i32(out: &mut Vec<u8>, v: i32)
    ensures
        final(out)@ == old(out)@ + i32_be_bytes(v),
{
    proof {
        lemma_pow256_bounds();
    }
    write_be(out, crate::varint::i32_to_u32(v) as u64, 4);
}

/// Reads a 4-byte big-endian signed integer in two's complement.
pub fn read_i32(data: &[u8], pos: usize) -> (r: Result<(i32, usize), Error>)
    requires
        pos <= data@.len(),
    ensures
        match r {
            Ok(p) => pos + 4 <= data@.len() && p.0 == crate::varint::i32_of_bits(
                be_val(data@.subrange(pos as int, pos + 4)),
            ) && p.1 == pos + 4,
            Err(e) => pos + 4 > data@.len() && e == Error::UnexpectedEof,
        },
{
    proof {
        lemma_pow256_bounds();
    }
    match read_be(data, pos, 4) {
        Ok((v, n)) => {
            proof {
                lemma_be_val_bound(data@.subrange(pos as int, pos + 4));
            }
            let out = if v < 0x8000_0000 {
                v as i32
            } else {
                (v as i64 - 0x1_0000_0000i64) as i32
            };
            Ok((out, n))
        },
        Err(e) => Err(e),
    }
}

/// The length-prefixed wire form of a UTF-8 string.
pub open spec fn string_bytes(c: Seq<char>) -> Seq<u8>
    recommends
        encode_utf8(c).len() <= 0x7fff_ffff,
{
    varint_bytes(encode_utf8(c).len() as i32) + encode_utf8(c)
}

/// What reading a length-prefixed string at `pos` yields: a VarInt byte
/// count, then that many UTF-8 bytes. A non-positive count denotes the
/// empty string; invalid UTF-8 fails with `Utf8`.
pub open spec fn spec_read_string(s: Seq<u8>, pos: int) -> Result<(Seq<char>, int), Error> {
    match varint_dec32(s.skip(pos)) {
        Ok((len, used)) => if len <= 0 {
            Ok((Seq::empty(), pos + used))
        } else if pos + used + len <= s.len() {
            if valid_utf8(s.subrange(pos + used, pos + used + len)) {
                Ok((decode_utf8(s.subrange(pos + used, pos + used + len)), pos + used + len))
            } else {
                Err(Error::Utf8)
            }
        } else {
            Err(Error::UnexpectedEof)
        },
        Err(e) => Err(e),
    }
}

/// Relies on std's `String::from_utf8`: it succeeds exactly on valid
/// UTF-8 and then holds the UTF-8 decoding of the bytes.
#[verifier::external_body]
fn string_from_utf8(bytes: Vec<u8>) -> (r: Result<String, Error>)
    ensures
        match r {
            Ok(s) => valid_utf8(bytes@) && s@ == decode_utf8(bytes@),
            Err(e) => !valid_utf8(bytes@) && e == Error::Utf8,
        },
{
    match String::from_utf8(bytes) {
        Ok(s) => Ok(s),
        Err(_) => Err(Error::Utf8),
    }
}

/// Appends the length-prefixed wire form of `s`.
pub fn write_string(out: &mut Vec<u8>, s: &str)
    requires
        encode_utf8(s@).len() <= 0x7fff_ffff,
    ensures
        final(out)@ == old(out)@ + string_bytes(s@),
{
    let bytes = s.as_bytes();
    VarInt(bytes.len() as i32).serialize(out);
    out.extend_from_slice(bytes);
    proof {
        assert(out@ =~= old(out)@ + string_bytes(s@));
    }
}

/// Reads a length-prefixed UTF-8 string at `pos`.
pub fn read_string(data: &[u8], pos: usize) -> (r: Result<(String, usize), Error>)
    requires
        pos <= data@.len(),
    ensures
        match r {
            Ok(p) => spec_read_string(data@, pos as int) == Ok::<(Seq<char>, int), Error>(
                (p.0@, p.1 as int),
            ) && pos <= p.1 <= data@.len(),
            Err(e) => spec_read_string(data@, pos as int) == Err::<(Seq<char>, int), Error>(e),
        },
{
    let tail = slice_subrange(data, pos, data.len());
    proof {
        assert(tail@ =~= data@.skip(pos as int));
    }
    let (len_v, used) = match VarInt::deserialize(tail) {
        Ok(p) => p,
        Err(e) => {
            return Err(e);
        },
    };
    proof {
        crate::varint::lemma_scan_props(tail@);
    }
    if len_v.0 <= 0 {
        return Ok((String::new(), pos + used));
    }
    let len = len_v.0 as usize;
    if len > data.len() - (pos + used) {
        return Err(Error::UnexpectedEof);
    }
    let body = slice_subrange(data, pos + used, pos + used + len);
    let bytes = slice_to_vec(body);
    match string_from_utf8(bytes) {
        Ok(s) => Ok((s, pos + used + len)),
        Err(e) => Err(e),
    }
}

/// String round trip: reading a length-prefixed string back out of any
/// stream that holds its wire form at `pos` recovers the characters and
/// stops right after them.
pub proof fn lemma_string_roundtrip(prefix: Seq<u8>, c: Seq<char>, rest: Seq<u8>)
    requires
        encode_utf8(c).len() <= 0x7fff_ffff,
    ensures
        spec_read_string(prefix + string_bytes(c) + rest, prefix.len() as int) == Ok::<
            (Seq<char>, int),
            Error,
        >((c, prefix.len() + string_bytes(c).len() as int)),
{
    let e = encode_utf8(c);
    let s = prefix + string_bytes(c) + rest;
    let pos = prefix.len() as int;
    assert(s.skip(pos) =~= varint_bytes(e.len() as i32) + (e + rest));
    crate::varint::lemma_varint_roundtrip(e.len() as i32, e + rest);
    let used = varint_bytes(e.len() as i32).len() as int;
    vstd::utf8::encode_utf8_decode_utf8(c);
    if e.len() == 0 {
        // an empty encoding can only come from the empty string
        assert(vstd::utf8::decode_utf8(e) =~= Seq::<char>::empty());
        assert(string_bytes(c) =~= varint_bytes(0i32));
    } else {
        assert(s.subrange(pos + used, pos + used + e.len() as int) =~= e);
        vstd::utf8::encode_utf8_valid_utf8(c);
    }
}

/// The length-prefixed wire form of a raw byte sequence.
pub open spec fn byte_vec_bytes(b: Seq<u8>) -> Seq<u8>
    recommends
        b.len() <= 0x7fff_ffff,
{
    varint_bytes(b.len() as i32) + b
}

/// What reading a length-prefixed byte sequence at `pos` yields. A
/// negative count cannot fit the remaining input and fails like any
/// other short read.
pub open spec fn spec_read_byte_vec(s: Seq<u8>, pos: int) -> Result<(Seq<u8>, int), Error> {
    match varint_dec32(s.skip(pos)) {
        Ok((len, used)) => if len < 0 {
            Err(Error::UnexpectedEof)
        } else if pos + used + len <= s.len() {
            Ok((s.subrange(pos + used, pos + used + len), pos + used + len))
        } else {
            Err(Error::UnexpectedEof)
        },
        Err(e) => Err(e),
    }
}

/// Appends the length-prefixed wire form of `b`.
pub fn write_byte_vec(out: &mut Vec<u8>, b: &[u8])
    requires
        b@.len() <= 0x7fff_ffff,
    ensures
        final(out)@ == old(out)@ + byte_vec_bytes(b@),
{
    VarInt(b.len() as i32).serialize(out);
    out.extend_from_slice(b);
    proof {
        assert(out@ =~= old(out)@ + byte_vec_bytes(b@));
    }
}

/// Reads a length-prefixed byte sequence at `pos`.
pub fn read_byte_vec(data: &[u8], pos: usize) -> (r: Result<(Vec<u8>, usize), Error>)
    requires
        pos <= data@.len(),
    ensures
        match r {
            Ok(p) => spec_read_byte_vec(data@, pos as int) == Ok::<(Seq<u8>, int), Error>(
                (p.0@, p.1 as int),
            ) && pos <= p.1 <= data@.len(),
            Err(e) => spec_read_byte_vec(data@, pos as int) == Err::<(Seq<u8>, int), Error>(e),
        },
{
    let tail = slice_subrange(data, pos, data.len());
    proof {
        assert(tail@ =~= data@.skip(pos as int));
    }
    let (len_v, used) = match VarInt::deserialize(tail) {
        Ok(p) => p,
        Err(e) => {
            return Err(e);
        },
    };
    proof {
        crate::varint::lemma_scan_props(tail@);
    }
    if len_v.0 < 0 {
        return Err(Error::UnexpectedEof);
    }
    let len = len_v.0 as usize;
    if len > data.len() - (pos + used) {
        return Err(Error::UnexpectedEof);
    }
    let body = slice_subrange(data, pos + used, pos + used + len);
    Ok((slice_to_vec(body), pos + used + len))
}

/// Reads every remaining byte from `pos` to the end.
pub fn read_rest(data: &[u8], pos: usize) -> (r: Vec<u8>)
    requires
        pos <= data@.len(),
    ensures
        r@ == data@.skip(pos as int),
{
    let body = slice_subrange(data, pos, data.len());
    let v = slice_to_vec(body);
    proof {
        assert(v@ =~= data@.skip(pos as int));
    }
    v
}

} // verus!
