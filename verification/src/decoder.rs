//! The inbound packet decoder: decrypts arriving bytes exactly once,
//! cuts one length-prefixed frame at a time out of the caller's buffer,
//! undoes compression, and splits off the packet id.
//!
//! Decryption state is per byte, so the decoder counts how many leading
//! bytes of the buffer it has already decrypted (`cipher_cursor`). When
//! a completed frame or a consumed length prefix leaves the buffer, the
//! cursor shrinks with it.

use vstd::prelude::*;

use vstd::slice::{slice_subrange, slice_to_vec};

use crate::cfb8::{cfb8_decrypt, cfb8_sr_after, Cfb8Cipher};
use crate::compress::{decompress_frame, spec_inflate_frame};
use crate::error::Error;
use crate::frame::frame_len;
use crate::packet::{spec_read_raw_packet, RawPacket};
use crate::varint::{lemma_varint_roundtrip, varint_bytes, varint_dec32, VarInt};

verus! {

/// The plaintext the buffer `src` stands for: the already-decrypted
/// prefix up to `cursor`, then the decryption of the rest.
pub open spec fn plain_of(cipher: &Option<Cfb8Cipher>, cursor: int, src: Seq<u8>) -> Seq<u8> {
    match cipher {
        None => src,
        Some(c) => src.take(cursor) + cfb8_decrypt(c.key@, c.sr@, src.skip(cursor)),
    }
}

/// What parsing one complete frame body into a raw packet yields:
/// the compression layer undone when enabled, then the packet id split
/// off the front.
pub open spec fn spec_parse_frame(compressed: bool, frame: Seq<u8>) -> Result<(i32, Seq<u8>), Error> {
    let body = if compressed {
        spec_inflate_frame(frame)
    } else {
        Ok(frame)
    };
    match body {
        Ok(b) => spec_read_raw_packet(b),
        Err(e) => Err(e),
    }
}

/// Decrypts, frames and splits inbound bytes into raw packets.
pub struct PacketDecoder {
    pub cipher: Option<Cfb8Cipher>,
    pub cipher_cursor: usize,
    pub pending_frame_length: Option<i32>,
    pub threshold: Option<usize>,
}

impl PacketDecoder {
    /// The decoder is sound against the buffer: the cipher, when
    /// present, is well-formed, and the decrypted prefix lies inside
    /// the buffer.
    pub open spec fn inv(&self, src: Seq<u8>) -> bool {
        &&& match self.cipher {
            Some(c) => c.wf(),
            None => true,
        }
        &&& self.cipher_cursor <= src.len()
    }

    /// The plaintext stream this decoder state and buffer stand for:
    /// a consumed length prefix restored in front of the decrypted
    /// buffer.
    pub open spec fn stream(&self, src: Seq<u8>) -> Seq<u8> {
        match self.pending_frame_length {
            None => plain_of(&self.cipher, self.cipher_cursor as int, src),
            Some(v) => varint_bytes(v) + plain_of(&self.cipher, self.cipher_cursor as int, src),
        }
    }

    /// A fresh decoder: no cipher, no compression, nothing pending.
    pub fn new() -> (r: PacketDecoder)
        ensures
            r.cipher is None,
            r.cipher_cursor == 0,
            r.pending_frame_length is None,
            r.threshold is None,
    {
        PacketDecoder {
            cipher: None,
            cipher_cursor: 0,
            pending_frame_length: None,
            threshold: None,
        }
    }

    /// Starts decrypting with the shared secret. A second call changes
    /// nothing: encryption is one-shot.
    pub fn enable_crypto(&mut self, shared_secret: &[u8])
        requires
            shared_secret@.len() == 16,
        ensures
            final(self).cipher_cursor == old(self).cipher_cursor,
            final(self).pending_frame_length == old(self).pending_frame_length,
            final(self).threshold == old(self).threshold,
            old(self).cipher is Some ==> final(self).cipher == old(self).cipher,
            old(self).cipher is None ==> (final(self).cipher matches Some(c) && c.wf() && c.key@
                == shared_secret@ && c.sr@ == shared_secret@),
    {
        if self.cipher.is_none() {
            self.cipher = Some(Cfb8Cipher::new(shared_secret));
        }
    }

    /// Turns compression on at the given threshold.
    pub fn enable_compression(&mut self, threshold: usize)
        ensures
            final(self).threshold == Some(threshold),
            final(self).cipher == old(self).cipher,
            final(self).cipher_cursor == old(self).cipher_cursor,
            final(self).pending_frame_length == old(self).pending_frame_length,
    {
        self.threshold = Some(threshold);
    }

    /// Turns compression off.
    pub fn disable_compression(&mut self)
        ensures
            final(self).threshold is None,
            final(self).cipher == old(self).cipher,
            final(self).cipher_cursor == old(self).cipher_cursor,
            final(self).pending_frame_length == old(self).pending_frame_length,
    {
        self.threshold = None;
    }

    /// Decrypts the not-yet-decrypted suffix of `src` in place and
    /// moves the cursor to the end.
    fn decrypt(&mut self, src: &mut Vec<u8>)
        requires
            old(self).inv(old(src)@),
        ensures
            final(self).inv(final(src)@),
            final(src)@ == plain_of(&old(self).cipher, old(self).cipher_cursor as int, old(src)@),
            final(self).cipher_cursor == final(src)@.len(),
            final(src)@.len() == old(src)@.len(),
            final(self).pending_frame_length == old(self).pending_frame_length,
            final(self).threshold == old(self).threshold,
            old(self).cipher is None ==> final(self).cipher is None && final(src)@ == old(src)@,
            old(self).cipher matches Some(c) ==> final(self).cipher matches Some(c2) && c2.key@
                == c.key@ && c2.wf() && c2.sr@ == cfb8_sr_after(
                c.sr@,
                old(src)@.skip(old(self).cipher_cursor as int),
            ),
    {
        let cursor = self.cipher_cursor;
        match &mut self.cipher {
            Some(c) => {
                let mut tail = src.split_off(cursor);
                c.decrypt(&mut tail);
                src.append(&mut tail);
                proof {
                    crate::cfb8::lemma_cfb8_decrypt_len(
                        old(self).cipher->Some_0.key@,
                        old(self).cipher->Some_0.sr@,
                        old(src)@.skip(cursor as int),
                    );
                    assert(src@ =~= old(src)@.take(cursor as int) + cfb8_decrypt(
                        old(self).cipher->Some_0.key@,
                        old(self).cipher->Some_0.sr@,
                        old(src)@.skip(cursor as int),
                    ));
                }
            },
            None => {
            },
        }
        self.cipher_cursor = src.len();
    }

    /// Pulls the next raw packet out of `src`, if a whole frame has
    /// arrived. `Ok(None)` asks for more bytes; the cursor, the pending
    /// length and the buffer then record exactly where decoding
    /// stopped, so the next call picks up there.
    pub fn decode(&mut self, src: &mut Vec<u8>) -> (r: Result<Option<RawPacket>, Error>)
        requires
            old(self).inv(old(src)@),
        ensures
            final(self).threshold == old(self).threshold,
            old(self).cipher is None ==> final(self).cipher is None,
            old(self).cipher matches Some(c) ==> final(self).cipher matches Some(c2) && c2.key@
                == c.key@ && c2.wf() && c2.sr@ == cfb8_sr_after(
                c.sr@,
                old(src)@.skip(old(self).cipher_cursor as int),
            ),
            r is Ok ==> final(self).inv(final(src)@) && final(self).cipher_cursor == final(src)@.len(),
            ({
                let s = old(self).stream(old(src)@);
                match r {
                    Ok(Some(packet)) => {
                        &&& varint_dec32(s) matches Ok(p) && 1 <= p.1 && p.1 + frame_len(p.0)
                            <= s.len() && spec_parse_frame(
                            old(self).threshold is Some,
                            s.subrange(p.1, p.1 + frame_len(p.0) as int),
                        ) == Ok::<(i32, Seq<u8>), Error>((packet.id.0, packet.data@)) && final(src)@ == s.skip(p.1 + frame_len(p.0) as int)
                        &&& final(self).pending_frame_length is None
                    },
                    Ok(None) => {
                        &&& varint_dec32(s) matches Ok(p) ==> p.1 + frame_len(p.0) > s.len()
                            && final(self).pending_frame_length == Some(p.0) && final(src)@
                            == s.skip(p.1)
                        &&& varint_dec32(s) matches Err(e) ==> e == Error::UnexpectedEof
                            && final(self).pending_frame_length is None && final(src)@ == plain_of(
                            &old(self).cipher,
                            old(self).cipher_cursor as int,
                            old(src)@,
                        )
                    },
                    Err(e) => {
                        &&& varint_dec32(s) matches Err(e2) ==> e == e2 && e2
                            != Error::UnexpectedEof
                        &&& varint_dec32(s) matches Ok(p) ==> p.1 + frame_len(p.0) <= s.len()
                            && spec_parse_frame(
                            old(self).threshold is Some,
                            s.subrange(p.1, p.1 + frame_len(p.0) as int),
                        ) == Err::<(i32, Seq<u8>), Error>(e)
                    },
                }
            }),
    {
        let ghost s = old(self).stream(old(src)@);
        self.decrypt(src);
        proof {
            assert(self.stream(src@) == s);
        }
        let ghost mut used_g: int = 0;
        let length: i32 = match self.pending_frame_length {
            Some(v) => {
                proof {
                    lemma_varint_roundtrip(v, src@);
                    used_g = varint_bytes(v).len() as int;
                    assert((varint_bytes(v) + src@).skip(used_g) =~= src@);
                }
                v
            },
            None => {
                match VarInt::deserialize(src.as_slice()) {
                    Ok((v, used)) => {
                        let rest = src.split_off(used);
                        *src = rest;
                        self.pending_frame_length = Some(v.0);
                        self.cipher_cursor = self.cipher_cursor - used;
                        proof {
                            used_g = used as int;
                            assert(src@ =~= s.skip(used as int));
                        }
                        v.0
                    },
                    Err(Error::UnexpectedEof) => {
                        return Ok(None);
                    },
                    Err(e) => {
                        return Err(e);
                    },
                }
            },
        };
        proof {
            assert(varint_dec32(s) == Ok::<(i32, int), Error>((length, used_g)));
            assert(src@ == s.skip(used_g));
            assert(s.len() == used_g + src@.len());
        }
        let blen = src.len();
        if length < 0 || blen < length as usize {
            proof {
                assert(used_g + frame_len(length) > s.len());
            }
            return Ok(None);
        }
        let l = length as usize;
        let frame = slice_to_vec(slice_subrange(src.as_slice(), 0, l));
        let rest = src.split_off(l);
        *src = rest;
        self.cipher_cursor = self.cipher_cursor - l;
        self.pending_frame_length = None;
        proof {
            assert(frame@ =~= s.subrange(used_g, used_g + frame_len(length) as int));
            assert(src@ =~= s.skip(used_g + frame_len(length) as int));
        }
        let body: Vec<u8> = if self.threshold.is_some() {
            match decompress_frame(frame.as_slice()) {
                Ok(b) => b,
                Err(e) => {
                    return Err(e);
                },
            }
        } else {
            frame
        };
        match RawPacket::try_from(body.as_slice()) {
            Ok(p) => Ok(Some(p)),
            Err(e) => Err(e),
        }
    }
}

} // verus!
