//! The frame decoder: consumes decrypted bytes in arbitrary chunks and
//! cuts them into length-prefixed frames, buffering partial input. The
//! length prefix is consumed eagerly and remembered, so the buffer
//! holds only bytes that belong to a frame body not yet complete.

use vstd::prelude::*;

use vstd::slice::{slice_subrange, slice_to_vec};

use crate::error::Error;
use crate::varint::{lemma_varint_roundtrip, varint_bytes, varint_dec32, VarInt};

verus! {

/// The number of body bytes a decoded VarInt length demands. A negative
/// length, reinterpreted as an unsigned machine word, exceeds any real
/// buffer, so no frame ever completes under it.
pub open spec fn frame_len(v: i32) -> nat {
    if v >= 0 {
        v as nat
    } else {
        0x1_0000_0000_0000_0000
    }
}

/// Greedy frame extraction from a byte stream: read a VarInt length,
/// split off that many bytes as one frame, repeat; stop at the first
/// incomplete prefix. A malformed length prefix is the only error.
pub open spec fn spec_frames(s: Seq<u8>) -> Result<Seq<Seq<u8>>, Error>
    decreases s.len(),
        via spec_frames_dec
{
    match varint_dec32(s) {
        Ok((v, used)) => if used + frame_len(v) <= s.len() {
            match spec_frames(s.skip(used + frame_len(v) as int)) {
                Ok(rest) => Ok(seq![s.subrange(used, used + frame_len(v) as int)] + rest),
                Err(e) => Err(e),
            }
        } else {
            Ok(Seq::empty())
        },
        Err(Error::UnexpectedEof) => Ok(Seq::empty()),
        Err(e) => Err(e),
    }
}

#[via_fn]
proof fn spec_frames_dec(s: Seq<u8>) {
    crate::varint::lemma_scan_props(s);
}

/// What the decoder holds after draining a stream: the pending frame
/// length, if one was read whose body is incomplete, and the buffered
/// body bytes.
pub open spec fn spec_remainder(s: Seq<u8>) -> (Option<i32>, Seq<u8>)
    decreases s.len(),
        via spec_remainder_dec
{
    match varint_dec32(s) {
        Ok((v, used)) => if used + frame_len(v) <= s.len() {
            spec_remainder(s.skip(used + frame_len(v) as int))
        } else {
            (Some(v), s.skip(used))
        },
        Err(_) => (None, s),
    }
}

#[via_fn]
proof fn spec_remainder_dec(s: Seq<u8>) {
    crate::varint::lemma_scan_props(s);
}

/// Cuts a stream of decrypted bytes into length-prefixed frames.
#[derive(Debug)]
pub struct FrameDecoder {
    pub pending_packet_length: Option<i32>,
    pub buffer: Vec<u8>,
}

impl FrameDecoder {
    /// The bytes this state stands for: the buffered bytes, behind a
    /// re-encoded length prefix if one was already consumed.
    pub open spec fn abs(&self) -> Seq<u8> {
        match self.pending_packet_length {
            None => self.buffer@,
            Some(v) => varint_bytes(v) + self.buffer@,
        }
    }

    /// A fresh decoder with nothing buffered.
    pub fn new() -> (r: FrameDecoder)
        ensures
            r.pending_packet_length is None,
            r.buffer@ == Seq::<u8>::empty(),
    {
        FrameDecoder { pending_packet_length: None, buffer: Vec::new() }
    }

    /// How many bytes sit in the buffer, a consumed length prefix not
    /// counted.
    pub fn buffered_len(&self) -> (r: usize)
        ensures
            r == self.buffer@.len(),
    {
        self.buffer.len()
    }

    /// Tries to cut one frame from the front. `Ok(Some)` hands the
    /// frame out and leaves the rest; `Ok(None)` means no frame is
    /// complete yet and records exactly where extraction stopped.
    fn try_decode(&mut self) -> (r: Result<Option<Vec<u8>>, Error>)
        ensures
            match r {
                Ok(Some(f)) => {
                    &&& varint_dec32(old(self).abs()) matches Ok(p) && 1 <= p.1 && p.1 + frame_len(
                        p.0,
                    ) <= old(self).abs().len() && f@ == old(self).abs().subrange(
                        p.1,
                        p.1 + frame_len(p.0) as int,
                    ) && final(self).buffer@ == old(self).abs().skip(p.1 + frame_len(p.0) as int)
                    &&& final(self).pending_packet_length is None
                },
                Ok(None) => {
                    &&& spec_frames(old(self).abs()) == Ok::<Seq<Seq<u8>>, Error>(Seq::empty())
                    &&& spec_remainder(old(self).abs()) == (
                        final(self).pending_packet_length,
                        final(self).buffer@,
                    )
                },
                Err(e) => varint_dec32(old(self).abs()) == Err::<(i32, int), Error>(e) && e
                    != Error::UnexpectedEof,
            },
    {
        let ghost a0 = old(self).abs();
        let ghost mut used_g: int = 0;
        let length: i32 = match self.pending_packet_length {
            Some(v) => {
                proof {
                    lemma_varint_roundtrip(v, self.buffer@);
                    used_g = varint_bytes(v).len() as int;
                    assert((varint_bytes(v) + self.buffer@).skip(used_g) =~= self.buffer@);
                }
                v
            },
            None => {
                match VarInt::deserialize(self.buffer.as_slice()) {
                    Ok((v, used)) => {
                        let rest = self.buffer.split_off(used);
                        self.buffer = rest;
                        self.pending_packet_length = Some(v.0);
                        proof {
                            used_g = used as int;
                            assert(self.buffer@ =~= a0.skip(used as int));
                        }
                        v.0
                    },
                    Err(Error::UnexpectedEof) => {
                        return Ok(None);
                    },
                    Err(e) => {
                        return Err(e);
                    },
                }
            },
        };
        proof {
            assert(varint_dec32(a0) == Ok::<(i32, int), Error>((length, used_g)));
            assert(a0.len() == used_g + self.buffer@.len());
        }
        let blen = self.buffer.len();
        if length < 0 || blen < length as usize {
            proof {
                assert(used_g + frame_len(length) > a0.len());
                assert(spec_frames(a0) == Ok::<Seq<Seq<u8>>, Error>(Seq::empty()));
                assert(spec_remainder(a0) == (Some(length), a0.skip(used_g)));
            }
            return Ok(None);
        }
        let l = length as usize;
        let frame = slice_to_vec(slice_subrange(self.buffer.as_slice(), 0, l));
        let rest = self.buffer.split_off(l);
        self.buffer = rest;
        self.pending_packet_length = None;
        proof {
            assert(frame@ =~= a0.subrange(used_g, used_g + frame_len(length) as int));
            assert(self.buffer@ =~= a0.skip(used_g + frame_len(length) as int));
        }
        Ok(Some(frame))
    }

    /// Appends `input` to the buffer and drains every complete frame,
    /// in order. The frames and the retained state are exactly what
    /// greedy extraction over all bytes ever fed yields.
    pub fn decode(&mut self, input: &[u8]) -> (r: Result<Vec<Vec<u8>>, Error>)
        ensures
            r matches Ok(frames) ==> {
                &&& spec_frames(old(self).abs() + input@) == Ok::<Seq<Seq<u8>>, Error>(
                    frames.deep_view(),
                )
                &&& final(self).pending_packet_length == spec_remainder(
                    old(self).abs() + input@,
                ).0
                &&& final(self).buffer@ == spec_remainder(old(self).abs() + input@).1
            },
            r matches Err(e) ==> spec_frames(old(self).abs() + input@) == Err::<
                Seq<Seq<u8>>,
                Error,
            >(e),
    {
        let ghost s0 = old(self).abs() + input@;
        self.buffer.extend_from_slice(input);
        proof {
            assert(self.abs() =~= s0);
        }
        let mut frames: Vec<Vec<u8>> = Vec::new();
        proof {
            match spec_frames(s0) {
                Ok(fs) => {
                    assert(frames.deep_view() + fs =~~= fs);
                },
                Err(_) => {},
            }
        }
        loop
            invariant
                s0 == old(self).abs() + input@,
                match spec_frames(self.abs()) {
                    Ok(fs) => spec_frames(s0) == Ok::<Seq<Seq<u8>>, Error>(
                        frames.deep_view() + fs,
                    ),
                    Err(e) => spec_frames(s0) == Err::<Seq<Seq<u8>>, Error>(e),
                },
                spec_remainder(s0) == spec_remainder(self.abs()),
            decreases self.abs().len(),
        {
            let ghost a_prev = self.abs();
            let ghost frames_prev = frames.deep_view();
            match self.try_decode() {
                Ok(Some(f)) => {
                    frames.push(f);
                    proof {
                        assert(frames.deep_view() =~~= frames_prev.push(f@));
                        match spec_frames(self.abs()) {
                            Ok(fs) => {
                                assert(spec_frames(a_prev) == Ok::<Seq<Seq<u8>>, Error>(
                                    seq![f@] + fs,
                                ));
                                assert(frames_prev + (seq![f@] + fs) =~~= frames.deep_view() + fs);
                            },
                            Err(e) => {
                                assert(spec_frames(a_prev) == Err::<Seq<Seq<u8>>, Error>(e));
                            },
                        }
                    }
                },
                Ok(None) => {
                    proof {
                        assert(spec_frames(a_prev) == Ok::<Seq<Seq<u8>>, Error>(Seq::empty()));
                        assert(frames.deep_view() + Seq::<Seq<u8>>::empty() =~~= frames.deep_view());
                    }
                    return Ok(frames);
                },
                Err(e) => {
                    proof {
                        assert(spec_frames(a_prev) == Err::<Seq<Seq<u8>>, Error>(e));
                    }
                    proof {
                        assert(spec_frames(s0) == Err::<Seq<Seq<u8>>, Error>(e));
                    }
                    return Err(e);
                },
            }
        }
    }
}

/// Frame decoder progress, complete half: a stream that starts with a
/// whole framed packet yields that packet first, and the rest of the
/// stream is handled exactly as if it stood alone.
pub proof fn lemma_frame_progress(len: i32, body: Seq<u8>, tail: Seq<u8>)
    requires
        0 <= len,
        body.len() == frame_len(len),
    ensures
        ({
            let s = varint_bytes(len) + body + tail;
            &&& spec_frames(s) == match spec_frames(tail) {
                Ok(rest) => Ok::<Seq<Seq<u8>>, Error>(seq![body] + rest),
                Err(e) => Err::<Seq<Seq<u8>>, Error>(e),
            }
            &&& spec_remainder(s) == spec_remainder(tail)
        }),
{
    let s = varint_bytes(len) + body + tail;
    lemma_varint_roundtrip(len, body + tail);
    let el = varint_bytes(len).len() as int;
    assert(s =~= varint_bytes(len) + (body + tail));
    assert(varint_dec32(s) == Ok::<(i32, int), Error>((len, el)));
    assert(s.subrange(el, el + frame_len(len) as int) =~= body);
    assert(s.skip(el + frame_len(len) as int) =~= tail);
}

/// Frame decoder progress, incomplete half: a length prefix whose body
/// has not fully arrived yields nothing, and every body byte is
/// retained behind the remembered length.
pub proof fn lemma_frame_incomplete(len: i32, part: Seq<u8>)
    requires
        0 <= len,
        part.len() < frame_len(len),
    ensures
        spec_frames(varint_bytes(len) + part) == Ok::<Seq<Seq<u8>>, Error>(Seq::empty()),
        spec_remainder(varint_bytes(len) + part) == (Some(len), part),
{
    let s = varint_bytes(len) + part;
    lemma_varint_roundtrip(len, part);
    let el = varint_bytes(len).len() as int;
    assert(varint_dec32(s) == Ok::<(i32, int), Error>((len, el)));
    assert(s.skip(el) =~= part);
}

/// Frame decoder progress, header half: a strict prefix of the length
/// prefix itself yields nothing and is retained whole.
pub proof fn lemma_frame_header_incomplete(len: i32, k: int)
    requires
        0 <= k < varint_bytes(len).len(),
    ensures
        spec_frames(varint_bytes(len).take(k)) == Ok::<Seq<Seq<u8>>, Error>(Seq::empty()),
        spec_remainder(varint_bytes(len).take(k)) == (
            None::<i32>,
            varint_bytes(len).take(k),
        ),
{
    let e = varint_bytes(len);
    crate::varint::lemma_enc_shape(crate::varint::i32_bits(len));
    let s = e.take(k);
    assert(forall|j: int| 0 <= j < s.len() ==> s[j] >= 128) by {
        assert(forall|j: int| 0 <= j < k ==> s[j] == e[j]);
    }
    crate::varint::lemma_scan_props(s);
    assert(crate::varint::varint_scan(s) is None);
    assert(s.len() < 5) by {
        crate::varint::lemma_pow128_bounds();
        crate::varint::lemma_enc_len(crate::varint::i32_bits(len), 5);
    }
    assert(varint_dec32(s) == Err::<(i32, int), Error>(Error::UnexpectedEof));
}

} // verus!
