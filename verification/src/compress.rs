//! The optional Zlib compression layer inside framing. Outbound, a body
//! at or over the threshold is replaced by its uncompressed length and
//! its Zlib stream; a shorter body is passed through behind a zero
//! marker. Inbound reverses both branches.

use vstd::prelude::*;

use vstd::slice::{slice_subrange, slice_to_vec};

use flate2::read::{ZlibDecoder, ZlibEncoder};
use flate2::Compression;
use std::io::Read;

use crate::error::Error;
use crate::varint::{lemma_varint_roundtrip, varint_bytes, varint_dec32, VarInt};

verus! {

/// The Zlib deflate of `data` at the default level: a function of the
/// bytes alone, named here and computed by flate2.
pub uninterp spec fn zlib_deflate(data: Seq<u8>) -> Seq<u8>;

/// What Zlib inflation yields on `data`: the decoded bytes, or nothing
/// when the stream is not well-formed.
pub uninterp spec fn zlib_inflate(data: Seq<u8>) -> Option<Seq<u8>>;

/// Relies on `flate2::read::ZlibEncoder` at the default level: the
/// stream it produces is a function of the input bytes and decodes back
/// to exactly those bytes.
#[verifier::external_body]
fn zlib_compress(data: &[u8]) -> (r: Vec<u8>)
    ensures
        r@ == zlib_deflate(data@),
        zlib_inflate(r@) == Some(data@),
{
    let mut encoder = ZlibEncoder::new(data, Compression::default());
    let mut out = Vec::new();
    // reading from an in-memory slice cannot fail
    let _ = encoder.read_to_end(&mut out);
    out
}

/// Relies on `flate2::read::ZlibDecoder`: it decodes well-formed Zlib
/// streams deterministically and rejects the rest.
#[verifier::external_body]
fn zlib_decompress(data: &[u8]) -> (r: Result<Vec<u8>, Error>)
    ensures
        match r {
            Ok(v) => zlib_inflate(data@) == Some(v@),
            Err(e) => zlib_inflate(data@) is None && e == Error::Decompress,
        },
{
    let mut decoder = ZlibDecoder::new(data);
    let mut out = Vec::new();
    match decoder.read_to_end(&mut out) {
        Ok(_) => Ok(out),
        Err(_) => Err(Error::Decompress),
    }
}

/// The outbound form of a packet body under compression `threshold`: at
/// or over the threshold, the uncompressed length and the Zlib stream;
/// under it, a zero marker and the body unchanged.
pub open spec fn compress_frame_bytes(threshold: int, b: Seq<u8>) -> Seq<u8>
    recommends
        b.len() <= 0x7fff_ffff,
{
    if b.len() >= threshold {
        varint_bytes(b.len() as i32) + zlib_deflate(b)
    } else {
        seq![0u8] + b
    }
}

/// What undoing the compression layer on a frame body yields: a VarInt
/// data length, then either the raw packet (length zero) or a Zlib
/// stream to inflate.
pub open spec fn spec_inflate_frame(f: Seq<u8>) -> Result<Seq<u8>, Error> {
    match varint_dec32(f) {
        Ok((dl, used)) => if dl > 0 {
            match zlib_inflate(f.skip(used)) {
                Some(d) => Ok(d),
                None => Err(Error::Decompress),
            }
        } else {
            Ok(f.skip(used))
        },
        Err(e) => Err(e),
    }
}

/// Applies the outbound compression layer to a packet body.
///
/// The second clause is the compression round trip: undoing the layer
/// recovers the body, in both branches. The one exception is an empty
/// body under threshold zero, whose outbound form marks its Zlib stream
/// with data length zero and so reads back as the raw stream.
pub fn compress_frame(threshold: usize, body: &[u8]) -> (r: Vec<u8>)
    requires
        body@.len() <= 0x7fff_ffff,
    ensures
        r@ == compress_frame_bytes(threshold as int, body@),
        body@.len() > 0 || threshold > 0 ==> spec_inflate_frame(r@) == Ok::<Seq<u8>, Error>(
            body@,
        ),
{
    if body.len() >= threshold {
        let mut out: Vec<u8> = Vec::new();
        VarInt(body.len() as i32).serialize(&mut out);
        let mut deflated = zlib_compress(body);
        let ghost d = deflated@;
        out.append(&mut deflated);
        proof {
            assert(out@ =~= varint_bytes(body@.len() as i32) + d);
            lemma_varint_roundtrip(body@.len() as i32, d);
            assert(out@.skip(varint_bytes(body@.len() as i32).len() as int) =~= d);
        }
        out
    } else {
        let mut out: Vec<u8> = Vec::new();
        out.push(0);
        out.extend_from_slice(body);
        proof {
            assert(out@ =~= seq![0u8] + body@);
            assert(varint_bytes(0i32) =~= seq![0u8]) by {
                crate::varint::lemma_enc_shape(0);
            };
            lemma_varint_roundtrip(0i32, body@);
            assert((varint_bytes(0i32) + body@).skip(1) =~= body@);
            assert(out@ == varint_bytes(0i32) + body@);
        }
        out
    }
}

/// Undoes the compression layer on one frame body.
pub fn decompress_frame(frame: &[u8]) -> (r: Result<Vec<u8>, Error>)
    ensures
        match r {
            Ok(v) => spec_inflate_frame(frame@) == Ok::<Seq<u8>, Error>(v@),
            Err(e) => spec_inflate_frame(frame@) == Err::<Seq<u8>, Error>(e),
        },
{
    let (dl, used) = match VarInt::deserialize(frame) {
        Ok(p) => p,
        Err(e) => {
            return Err(e);
        },
    };
    let rest = slice_subrange(frame, used, frame.len());
    proof {
        assert(rest@ =~= frame@.skip(used as int));
    }
    if dl.0 > 0 {
        zlib_decompress(rest)
    } else {
        Ok(slice_to_vec(rest))
    }
}

} // verus!
