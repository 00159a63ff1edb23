//! Variable-width integer codec: VarInt (`i32`, at most 5 bytes) and
//! VarLong (`i64`, at most 10 bytes), in 7-bit little-endian continuation
//! form. The wire form stores 7 data bits per byte, least significant
//! group first, with the high bit set on every non-final byte.

use vstd::prelude::*;

use crate::error::Error;

verus! {

/// 128^k, the weight of the k-th 7-bit group.
pub open spec fn pow128(k: nat) -> nat
    decreases k,
{
    if k == 0 {
        1
    } else {
        128 * pow128((k - 1) as nat)
    }
}

/// The encoding of the non-negative integer `n` as base-128 groups,
/// least significant first, continuation bit on every byte but the last.
pub open spec fn varint_enc(n: nat) -> Seq<u8>
    decreases n,
{
    if n < 128 {
        seq![n as u8]
    } else {
        seq![(n % 128 + 128) as u8] + varint_enc(n / 128)
    }
}

/// The integer denoted by the data bits of `s`, all bytes taken as groups.
pub open spec fn varint_val(s: Seq<u8>) -> nat
    decreases s.len(),
{
    if s.len() == 0 {
        0
    } else {
        (s[0] % 128) as nat + 128 * varint_val(s.drop_first())
    }
}

/// Index of the first byte of `s` without the continuation bit, if any.
pub open spec fn varint_scan(s: Seq<u8>) -> Option<int>
    decreases s.len(),
{
    if s.len() == 0 {
        None
    } else if s[0] < 128 {
        Some(0int)
    } else {
        match varint_scan(s.drop_first()) {
            Some(i) => Some(i + 1),
            None => None,
        }
    }
}

/// What decoding a variable-width integer of at most `max` bytes from the
/// front of `s` yields: the (untruncated) value and the bytes consumed, or
/// the error. Nothing is consumed on error.
pub open spec fn varint_dec(s: Seq<u8>, max: int) -> Result<(nat, int), Error> {
    match varint_scan(s) {
        Some(k) => if k < max {
            Ok((varint_val(s.take(k + 1)), k + 1))
        } else {
            Err(Error::Overflow)
        },
        None => if s.len() < max {
            Err(Error::UnexpectedEof)
        } else {
            Err(Error::Overflow)
        },
    }
}

/// The unsigned 32-bit reinterpretation of `v` (two's complement).
pub open spec fn i32_bits(v: i32) -> nat {
    if v >= 0 {
        v as nat
    } else {
        (v + 0x1_0000_0000) as nat
    }
}

/// The signed value whose 32-bit two's complement pattern is `n`.
pub open spec fn i32_of_bits(n: nat) -> i32
    recommends
        n < 0x1_0000_0000,
{
    if n % 0x1_0000_0000 < 0x8000_0000 {
        (n % 0x1_0000_0000) as i32
    } else {
        (n % 0x1_0000_0000 - 0x1_0000_0000) as i32
    }
}

/// The unsigned 64-bit reinterpretation of `v` (two's complement).
pub open spec fn i64_bits(v: i64) -> nat {
    if v >= 0 {
        v as nat
    } else {
        (v + 0x1_0000_0000_0000_0000) as nat
    }
}

/// The signed value whose 64-bit two's complement pattern is `n`.
pub open spec fn i64_of_bits(n: nat) -> i64
    recommends
        n < 0x1_0000_0000_0000_0000,
{
    if n % 0x1_0000_0000_0000_0000 < 0x8000_0000_0000_0000 {
        (n % 0x1_0000_0000_0000_0000) as i64
    } else {
        (n % 0x1_0000_0000_0000_0000 - 0x1_0000_0000_0000_0000) as i64
    }
}

/// The wire bytes of a VarInt holding `v`.
pub open spec fn varint_bytes(v: i32) -> Seq<u8> {
    varint_enc(i32_bits(v))
}

/// The wire bytes of a VarLong holding `v`.
pub open spec fn varlong_bytes(v: i64) -> Seq<u8> {
    varint_enc(i64_bits(v))
}

/// What deserializing a VarInt from the front of `s` yields.
pub open spec fn varint_dec32(s: Seq<u8>) -> Result<(i32, int), Error> {
    match varint_dec(s, 5) {
        Ok((n, used)) => Ok((i32_of_bits(n % 0x1_0000_0000), used)),
        Err(e) => Err(e),
    }
}

/// What deserializing a VarLong from the front of `s` yields.
pub open spec fn varlong_dec64(s: Seq<u8>) -> Result<(i64, int), Error> {
    match varint_dec(s, 10) {
        Ok((n, used)) => Ok((i64_of_bits(n % 0x1_0000_0000_0000_0000), used)),
        Err(e) => Err(e),
    }
}

/// A signed 32-bit integer in variable-width wire form.
#[derive(Debug, Clone, Copy, PartialEq, Eq, Structural)]
pub struct VarInt(pub i32);

/// A signed 64-bit integer in variable-width wire form. `consumed`
/// records how many wire bytes a deserialization read, and is 0 on a
/// value that was built directly.
#[derive(Debug, Clone, Copy, PartialEq, Eq, Structural)]
pub struct VarLong {
    pub inner: i64,
    pub consumed: usize,
}

impl VarInt {
    /// The integer this VarInt holds.
    pub fn value(&self) -> (r: i32)
        ensures
            r == self.0,
    {
        self.0
    }

    /// Appends the wire form of `self` to `out`: between 1 and 5 bytes.
    pub fn serialize(&self, out: &mut Vec<u8>)
        ensures
            final(out)@ == old(out)@ + varint_bytes(self.0),
    {
        let ghost n0 = i32_bits(self.0);
        let mut value: u32 = i32_to_u32(self.0);
        while value >= 128
            invariant
                old(out)@.is_prefix_of(out@),
                varint_enc(n0) == out@.skip(old(out)@.len() as int) + varint_enc(value as nat),
            decreases value,
        {
            let ghost emitted = out@.skip(old(out)@.len() as int);
            let ghost prev = value as nat;
            let byte: u8 = (value % 128 + 128) as u8;
            out.push(byte);
            value = value / 128;
            proof {
                assert(varint_enc(prev) == seq![byte] + varint_enc(value as nat));
                assert(out@.skip(old(out)@.len() as int) =~= emitted + seq![byte]);
                assert((emitted + seq![byte]) + varint_enc(value as nat) =~= emitted + (seq![byte]
                    + varint_enc(value as nat)));
            }
        }
        let ghost emitted = out@.skip(old(out)@.len() as int);
        out.push(value as u8);
        proof {
            assert(varint_enc(value as nat) == seq![value as u8]);
            assert(out@.skip(old(out)@.len() as int) =~= emitted + seq![value as u8]);
            assert(out@ =~= old(out)@ + (emitted + seq![value as u8]));
        }
    }

    /// Reads a VarInt from the front of `data`: at most 5 bytes. On
    /// success returns the value and the number of bytes consumed; on
    /// failure nothing is considered consumed.
    pub fn deserialize(data: &[u8]) -> (r: Result<(VarInt, usize), Error>)
        ensures
            match r {
                Ok(p) => varint_dec32(data@) == Ok::<(i32, int), Error>((p.0.0, p.1 as int)) && 1
                    <= p.1 <= 5 && p.1 <= data@.len(),
                Err(e) => varint_dec32(data@) == Err::<(i32, int), Error>(e),
            },
    {
        let mut value: u64 = 0;
        let mut mult: u64 = 1;
        let mut i: usize = 0;
        while i < 5
            invariant
                i <= 5,
                i <= data@.len(),
                mult == pow128(i as nat),
                value == varint_val(data@.take(i as int)),
                varint_scan(data@.take(i as int)) is None,
                forall|j: int| 0 <= j < i ==> data@[j] >= 128,
            decreases 5 - i,
        {
            if data.len() <= i {
                proof {
                    lemma_scan_all_high(data@, i as int);
                }
                return Err(Error::UnexpectedEof);
            }
            let b = data[i];
            proof {
                lemma_varint_val_push(data@.take(i as int), b);
                lemma_scan_push(data@.take(i as int), b);
                assert(data@.take(i as int).push(b) =~= data@.take(i + 1));
                lemma_pow128_bounds();
                lemma_pow128_mono(i as nat, 4);
                lemma_varint_val_bound(data@.take(i as int));
                assert((b as u64 % 128) * mult <= 127 * mult) by (nonlinear_arith);
            }
            value = value + (b as u64 % 128) * mult;
            if b < 128 {
                proof {
                    lemma_scan_prefix(data@, i as int);
                }
                let v32 = (value % 0x1_0000_0000) as u32;
                let out = if v32 < 0x8000_0000 {
                    v32 as i32
                } else {
                    (v32 as i64 - 0x1_0000_0000i64) as i32
                };
                return Ok((VarInt(out), i + 1));
            }
            mult = mult * 128;
            i = i + 1;
        }
        proof {
            lemma_scan_low_bound(data@, 5);
        }
        Err(Error::Overflow)
    }
}

impl VarLong {
    /// A VarLong holding `v`, not yet tied to any wire bytes.
    pub fn new(v: i64) -> (r: VarLong)
        ensures
            r.inner == v,
            r.consumed == 0,
    {
        VarLong { inner: v, consumed: 0 }
    }

    /// The integer this VarLong holds.
    pub fn value(&self) -> (r: i64)
        ensures
            r == self.inner,
    {
        self.inner
    }

    /// How many wire bytes deserialization read to produce this value.
    pub fn consumed(&self) -> (r: usize)
        ensures
            r == self.consumed,
    {
        self.consumed
    }

    /// Appends the wire form of `self` to `out`: between 1 and 10 bytes.
    pub fn serialize(&self, out: &mut Vec<u8>)
        ensures
            final(out)@ == old(out)@ + varlong_bytes(self.inner),
    {
        let ghost n0 = i64_bits(self.inner);
        let mut value: u64 = i64_to_u64(self.inner);
        while value >= 128
            invariant
                old(out)@.is_prefix_of(out@),
                varint_enc(n0) == out@.skip(old(out)@.len() as int) + varint_enc(value as nat),
            decreases value,
        {
            let ghost emitted = out@.skip(old(out)@.len() as int);
            let ghost prev = value as nat;
            let byte: u8 = (value % 128 + 128) as u8;
            out.push(byte);
            value = value / 128;
            proof {
                assert(varint_enc(prev) == seq![byte] + varint_enc(value as nat));
                assert(out@.skip(old(out)@.len() as int) =~= emitted + seq![byte]);
                assert((emitted + seq![byte]) + varint_enc(value as nat) =~= emitted + (seq![byte]
                    + varint_enc(value as nat)));
            }
        }
        let ghost emitted = out@.skip(old(out)@.len() as int);
        out.push(value as u8);
        proof {
            assert(varint_enc(value as nat) == seq![value as u8]);
            assert(out@.skip(old(out)@.len() as int) =~= emitted + seq![value as u8]);
            assert(out@ =~= old(out)@ + (emitted + seq![value as u8]));
        }
    }

    /// Reads a VarLong from the front of `data`: at most 10 bytes. The
    /// result records in `consumed` how many bytes it took; on failure
    /// nothing is considered consumed.
    pub fn deserialize(data: &[u8]) -> (r: Result<VarLong, Error>)
        ensures
            match r {
                Ok(v) => varlong_dec64(data@) == Ok::<(i64, int), Error>((v.inner, v.consumed as int))
                    && 1 <= v.consumed <= 10 && v.consumed <= data@.len(),
                Err(e) => varlong_dec64(data@) == Err::<(i64, int), Error>(e),
            },
    {
        let mut value: u128 = 0;
        let mut mult: u128 = 1;
        let mut i: usize = 0;
        while i < 10
            invariant
                i <= 10,
                i <= data@.len(),
                mult == pow128(i as nat),
                value == varint_val(data@.take(i as int)),
                varint_scan(data@.take(i as int)) is None,
                forall|j: int| 0 <= j < i ==> data@[j] >= 128,
            decreases 10 - i,
        {
            if data.len() <= i {
                proof {
                    lemma_scan_all_high(data@, i as int);
                }
                return Err(Error::UnexpectedEof);
            }
            let b = data[i];
            proof {
                lemma_varint_val_push(data@.take(i as int), b);
                lemma_scan_push(data@.take(i as int), b);
                assert(data@.take(i as int).push(b) =~= data@.take(i + 1));
                lemma_pow128_bounds();
                lemma_pow128_mono(i as nat, 9);
                lemma_varint_val_bound(data@.take(i as int));
                assert((b as u128 % 128) * mult <= 127 * mult) by (nonlinear_arith);
            }
            value = value + (b as u128 % 128) * mult;
            if b < 128 {
                proof {
                    lemma_scan_prefix(data@, i as int);
                }
                let v64 = (value % 0x1_0000_0000_0000_0000) as u64;
                let out = if v64 < 0x8000_0000_0000_0000 {
                    v64 as i64
                } else {
                    (v64 as i128 - 0x1_0000_0000_0000_0000i128) as i64
                };
                return Ok(VarLong { inner: out, consumed: i + 1 });
            }
            mult = mult * 128;
            i = i + 1;
        }
        proof {
            lemma_scan_low_bound(data@, 10);
        }
        Err(Error::Overflow)
    }
}

/// Reinterprets `v` as its unsigned 32-bit two's complement pattern.
pub fn i32_to_u32(v: i32) -> (r: u32)
    ensures
        r == i32_bits(v),
{
    if v >= 0 {
        v as u32
    } else {
        (v as i64 + 0x1_0000_0000i64) as u32
    }
}

/// Reinterprets `v` as its unsigned 64-bit two's complement pattern.
pub fn i64_to_u64(v: i64) -> (r: u64)
    ensures
        r == i64_bits(v),
{
    if v >= 0 {
        v as u64
    } else {
        (v as i128 + 0x1_0000_0000_0000_0000i128) as u64
    }
}

/// Appending a group to the bytes adds its weighted value.
pub proof fn lemma_varint_val_push(s: Seq<u8>, b: u8)
    ensures
        varint_val(s.push(b)) == varint_val(s) + (b % 128) * pow128(s.len()),
    decreases s.len(),
{
    if s.len() == 0 {
        assert(s.push(b) =~= seq![b]);
        assert(varint_val(seq![b].drop_first()) == 0) by {
            assert(seq![b].drop_first() =~= Seq::<u8>::empty());
        };
        assert(pow128(0) == 1);
    } else {
        assert(s.push(b).drop_first() =~= s.drop_first().push(b));
        lemma_varint_val_push(s.drop_first(), b);
        assert(varint_val(s.push(b)) == (s[0] % 128) as nat + 128 * (varint_val(s.drop_first()) + (
        b % 128) * pow128((s.len() - 1) as nat)));
        assert(128 * (varint_val(s.drop_first()) + (b % 128) * pow128((s.len() - 1) as nat)) == 128
            * varint_val(s.drop_first()) + (b % 128) * (128 * pow128((s.len() - 1) as nat)))
            by (nonlinear_arith);
        assert(pow128(s.len()) == 128 * pow128((s.len() - 1) as nat));
    }
}

/// If no terminator was found in `s`, one more high byte keeps it that way,
/// and a low byte terminates at the end.
pub proof fn lemma_scan_push(s: Seq<u8>, b: u8)
    requires
        varint_scan(s) is None,
    ensures
        b >= 128 ==> varint_scan(s.push(b)) is None,
        b < 128 ==> varint_scan(s.push(b)) == Some(s.len() as int),
    decreases s.len(),
{
    if s.len() == 0 {
        assert(s.push(b) =~= seq![b]);
        if b >= 128 {
            assert(seq![b].drop_first() =~= Seq::<u8>::empty());
        } else {
            assert(varint_scan(seq![b]) == Some(0int));
        }
    } else {
        assert(s.push(b).drop_first() =~= s.drop_first().push(b));
        lemma_scan_push(s.drop_first(), b);
    }
}

/// A prefix of all-high bytes that spans the whole input means no terminator.
proof fn lemma_scan_all_high(s: Seq<u8>, i: int)
    requires
        0 <= i,
        s.len() == i,
        varint_scan(s.take(i)) is None,
    ensures
        varint_scan(s) is None,
{
    assert(s.take(i) =~= s);
}

/// Scanning is determined by the prefix up to and including the first low
/// byte.
proof fn lemma_scan_prefix(s: Seq<u8>, i: int)
    requires
        0 <= i < s.len(),
        varint_scan(s.take(i)) is None,
        s[i] < 128,
    ensures
        varint_scan(s) == Some(i),
    decreases s.len(),
{
    if i == 0 {
        assert(varint_scan(s) == Some(0int));
    } else {
        assert(s[0] >= 128) by {
            assert(s.take(i)[0] == s[0]);
            assert(varint_scan(s.take(i)) is None);
        };
        assert(s.drop_first().take(i - 1) =~= s.take(i).drop_first());
        lemma_scan_prefix(s.drop_first(), i - 1);
    }
}

/// If the first `m` bytes are high, any terminator lies at `m` or later.
proof fn lemma_scan_low_bound(s: Seq<u8>, m: int)
    requires
        0 <= m <= s.len(),
        forall|j: int| 0 <= j < m ==> s[j] >= 128,
    ensures
        match varint_scan(s) {
            Some(k) => k >= m,
            None => true,
        },
    decreases m,
{
    lemma_scan_nonneg(s);
    if m > 0 {
        assert(s[0] >= 128);
        assert forall|j: int| 0 <= j < m - 1 implies s.drop_first()[j] >= 128 by {
            assert(s.drop_first()[j] == s[j + 1]);
        }
        lemma_scan_low_bound(s.drop_first(), m - 1);
        assert(varint_scan(s) == (match varint_scan(s.drop_first()) {
            Some(i) => Some(i + 1),
            None => None::<int>,
        }));
    }
}

/// Where the scan finds a terminator, it lies in range, the byte there
/// is low, and every earlier byte is high; where it finds none, every
/// byte is high.
pub proof fn lemma_scan_props(s: Seq<u8>)
    ensures
        match varint_scan(s) {
            Some(k) => 0 <= k < s.len() && s[k] < 128 && (forall|j: int|
                0 <= j < k ==> s[j] >= 128),
            None => forall|j: int| 0 <= j < s.len() ==> s[j] >= 128,
        },
    decreases s.len(),
{
    if s.len() > 0 && s[0] >= 128 {
        lemma_scan_props(s.drop_first());
        assert forall|j: int| 1 <= j < s.len() implies s[j] == s.drop_first()[j - 1] by {}
    }
}

/// A found terminator index is never negative.
proof fn lemma_scan_nonneg(s: Seq<u8>)
    ensures
        match varint_scan(s) {
            Some(k) => 0 <= k,
            None => true,
        },
    decreases s.len(),
{
    if s.len() > 0 && s[0] >= 128 {
        lemma_scan_nonneg(s.drop_first());
    }
}

/// The value of `k` groups is below 128^k.
pub proof fn lemma_varint_val_bound(s: Seq<u8>)
    ensures
        varint_val(s) < pow128(s.len()),
    decreases s.len(),
{
    if s.len() > 0 {
        lemma_varint_val_bound(s.drop_first());
        assert(128 * varint_val(s.drop_first()) <= 128 * (pow128((s.len() - 1) as nat) - 1))
            by (nonlinear_arith)
            requires
                varint_val(s.drop_first()) <= pow128((s.len() - 1) as nat) - 1,
        ;
    }
}

/// Concrete powers of 128 the codecs need.
pub proof fn lemma_pow128_bounds()
    ensures
        pow128(0) == 1,
        pow128(1) == 128,
        pow128(2) == 0x4000,
        pow128(3) == 0x20_0000,
        pow128(4) == 0x1000_0000,
        pow128(5) == 0x8_0000_0000,
        pow128(10) == 0x40_0000_0000_0000_0000,
{
    reveal_with_fuel(pow128, 12);
}

/// Powers of 128 do not decrease.
pub proof fn lemma_pow128_mono(a: nat, b: nat)
    requires
        a <= b,
    ensures
        pow128(a) <= pow128(b),
    decreases b,
{
    if a < b {
        lemma_pow128_mono(a, (b - 1) as nat);
        assert(pow128(b) == 128 * pow128((b - 1) as nat));
        assert(128 * pow128((b - 1) as nat) >= pow128((b - 1) as nat)) by (nonlinear_arith);
    }
}

/// Reading back the groups of an encoding yields the encoded value.
pub proof fn lemma_enc_val(n: nat)
    ensures
        varint_val(varint_enc(n)) == n,
    decreases n,
{
    if n < 128 {
        assert(varint_enc(n) == seq![n as u8]);
        assert(seq![n as u8].drop_first() =~= Seq::<u8>::empty());
        assert(varint_val(seq![n as u8]) == (n as u8 % 128) as nat + 128 * varint_val(
            seq![n as u8].drop_first()));
        assert(varint_val(varint_enc(n)) == n);
    } else {
        lemma_enc_val(n / 128);
        let b = (n % 128 + 128) as u8;
        let t = varint_enc(n / 128);
        assert(varint_enc(n) == seq![b] + t);
        assert((seq![b] + t).drop_first() =~= t);
        assert((seq![b] + t)[0] == b);
        assert(b % 128 == n % 128);
        assert(varint_val(seq![b] + t) == (b % 128) as nat + 128 * varint_val(t));
        assert(n % 128 + 128 * (n / 128) == n) by (nonlinear_arith);
        assert(varint_val(varint_enc(n)) == n);
    }
}

/// Every encoded byte but the last carries the continuation bit; the
/// last does not.
pub proof fn lemma_enc_shape(n: nat)
    ensures
        varint_enc(n).len() >= 1,
        forall|i: int| 0 <= i < varint_enc(n).len() - 1 ==> varint_enc(n)[i] >= 128,
        varint_enc(n).last() < 128,
    decreases n,
{
    if n < 128 {
    } else {
        lemma_enc_shape(n / 128);
        let e = varint_enc(n);
        let t = varint_enc(n / 128);
        assert(e == seq![(n % 128 + 128) as u8] + t);
        assert(e.last() == t.last());
        assert forall|i: int| 0 <= i < e.len() - 1 implies e[i] >= 128 by {
            if i == 0 {
                assert(e[0] == (n % 128 + 128) as u8);
            } else {
                assert(e[i] == t[i - 1]);
            }
        }
    }
}

/// `k` groups suffice for any value below 128^k.
pub proof fn lemma_enc_len(n: nat, k: nat)
    requires
        n < pow128(k),
        k >= 1,
    ensures
        varint_enc(n).len() <= k,
    decreases n,
{
    lemma_pow128_bounds();
    if n >= 128 {
        if k == 1 {
            assert(false);
        }
        assert(pow128(k) == 128 * pow128((k - 1) as nat));
        assert(n / 128 < pow128((k - 1) as nat)) by (nonlinear_arith)
            requires
                n < 128 * pow128((k - 1) as nat),
        ;
        lemma_enc_len(n / 128, (k - 1) as nat);
    }
}

/// No terminator among bytes that all carry the continuation bit.
proof fn lemma_scan_none(s: Seq<u8>)
    requires
        forall|j: int| 0 <= j < s.len() ==> s[j] >= 128,
    ensures
        varint_scan(s) is None,
    decreases s.len(),
{
    if s.len() > 0 {
        assert forall|j: int| 0 <= j < s.drop_first().len() implies s.drop_first()[j] >= 128 by {
            assert(s.drop_first()[j] == s[j + 1]);
        }
        lemma_scan_none(s.drop_first());
    }
}

/// Decoding an encoding followed by anything consumes exactly the
/// encoding and yields the encoded value.
proof fn lemma_enc_dec(n: nat, max: int, rest: Seq<u8>)
    requires
        max >= 1,
        n < pow128(max as nat),
    ensures
        varint_dec(varint_enc(n) + rest, max) == Ok::<(nat, int), Error>(
            (n, varint_enc(n).len() as int),
        ),
{
    let e = varint_enc(n);
    let s = e + rest;
    lemma_enc_shape(n);
    lemma_enc_len(n, max as nat);
    lemma_enc_val(n);
    let l = e.len() as int;
    assert forall|j: int| 0 <= j < s.take(l - 1).len() implies #[trigger] s.take(l - 1)[j]
        >= 128 by {
        assert(s.take(l - 1)[j] == e[j]);
    }
    lemma_scan_none(s.take(l - 1));
    assert(s[l - 1] == e.last());
    lemma_scan_prefix(s, l - 1);
    assert(s.take(l) =~= e);
}

/// VarInt round trip: deserializing the serialized wire form of any
/// `i32` recovers the value, consuming its full encoding of between
/// 1 and 5 bytes, whatever bytes follow it.
pub proof fn lemma_varint_roundtrip(v: i32, rest: Seq<u8>)
    ensures
        1 <= varint_bytes(v).len() <= 5,
        varint_dec32(varint_bytes(v) + rest) == Ok::<(i32, int), Error>(
            (v, varint_bytes(v).len() as int),
        ),
{
    let n = i32_bits(v);
    lemma_pow128_bounds();
    lemma_enc_dec(n, 5, rest);
    lemma_enc_shape(n);
    assert(n % 0x1_0000_0000 == n);
    assert(i32_of_bits(n) == v);
}

/// VarLong round trip: deserializing the serialized wire form of any
/// `i64` recovers the value, consuming its full encoding of between
/// 1 and 10 bytes, whatever bytes follow it.
pub proof fn lemma_varlong_roundtrip(v: i64, rest: Seq<u8>)
    ensures
        1 <= varlong_bytes(v).len() <= 10,
        varlong_dec64(varlong_bytes(v) + rest) == Ok::<(i64, int), Error>(
            (v, varlong_bytes(v).len() as int),
        ),
{
    let n = i64_bits(v);
    lemma_pow128_bounds();
    lemma_enc_dec(n, 10, rest);
    lemma_enc_shape(n);
    assert(n % 0x1_0000_0000_0000_0000 == n);
    assert(i64_of_bits(n) == v);
}

} // verus!
