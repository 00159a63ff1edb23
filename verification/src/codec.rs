//! The bidirectional packet codec: one encoder and one decoder over the
//! same connection, with independent cipher states for the two
//! directions and one shared compression threshold.

use vstd::prelude::*;

use crate::cfb8::{
    cfb8_decrypt, cfb8_encrypt, cfb8_sr_after, lemma_cfb8_self_inverse,
};
use crate::decoder::{plain_of, spec_parse_frame, PacketDecoder};
use crate::encoder::{plain_frame, PacketEncoder};
use crate::error::Error;
use crate::frame::frame_len;
use crate::packet::{raw_packet_bytes, RawPacket};
use crate::varint::{lemma_varint_roundtrip, varint_bytes, varint_dec32};

verus! {

/// The two directions of one connection's framed transport.
pub struct PacketCodec {
    pub encoder: PacketEncoder,
    pub decoder: PacketDecoder,
}

impl PacketCodec {
    /// A fresh codec: plaintext, uncompressed, nothing buffered.
    pub fn new() -> (r: PacketCodec)
        ensures
            r.encoder.cipher is None,
            r.encoder.threshold is None,
            r.decoder.cipher is None,
            r.decoder.cipher_cursor == 0,
            r.decoder.pending_frame_length is None,
            r.decoder.threshold is None,
    {
        PacketCodec { encoder: PacketEncoder::new(), decoder: PacketDecoder::new() }
    }

    /// Starts encryption in both directions with the one shared secret.
    /// Encryption is one-shot: later calls change nothing.
    pub fn enable_crypto(&mut self, shared_secret: &[u8])
        requires
            shared_secret@.len() == 16,
        ensures
            final(self).encoder.threshold == old(self).encoder.threshold,
            final(self).decoder.threshold == old(self).decoder.threshold,
            final(self).decoder.cipher_cursor == old(self).decoder.cipher_cursor,
            final(self).decoder.pending_frame_length == old(self).decoder.pending_frame_length,
            old(self).encoder.cipher is Some ==> final(self).encoder.cipher == old(
                self,
            ).encoder.cipher,
            old(self).encoder.cipher is None ==> (final(self).encoder.cipher matches Some(c)
                && c.wf() && c.key@ == shared_secret@ && c.sr@ == shared_secret@),
            old(self).decoder.cipher is Some ==> final(self).decoder.cipher == old(
                self,
            ).decoder.cipher,
            old(self).decoder.cipher is None ==> (final(self).decoder.cipher matches Some(c)
                && c.wf() && c.key@ == shared_secret@ && c.sr@ == shared_secret@),
    {
        self.decoder.enable_crypto(shared_secret);
        self.encoder.enable_crypto(shared_secret);
    }

    /// Turns compression on at the given threshold, in both directions.
    pub fn enable_compression(&mut self, threshold: usize)
        ensures
            final(self).encoder.threshold == Some(threshold),
            final(self).decoder.threshold == Some(threshold),
            final(self).encoder.cipher == old(self).encoder.cipher,
            final(self).decoder.cipher == old(self).decoder.cipher,
            final(self).decoder.cipher_cursor == old(self).decoder.cipher_cursor,
            final(self).decoder.pending_frame_length == old(self).decoder.pending_frame_length,
    {
        self.decoder.enable_compression(threshold);
        self.encoder.enable_compression(threshold);
    }

    /// Turns compression off in both directions.
    pub fn disable_compression(&mut self)
        ensures
            final(self).encoder.threshold is None,
            final(self).decoder.threshold is None,
            final(self).encoder.cipher == old(self).encoder.cipher,
            final(self).decoder.cipher == old(self).decoder.cipher,
            final(self).decoder.cipher_cursor == old(self).decoder.cipher_cursor,
            final(self).decoder.pending_frame_length == old(self).decoder.pending_frame_length,
    {
        self.decoder.disable_compression();
        self.encoder.disable_compression();
    }

    /// Pulls the next raw packet out of `src`. The whole contract lives
    /// on `PacketDecoder::decode`; the encoder is untouched.
    pub fn decode(&mut self, src: &mut Vec<u8>) -> (r: Result<Option<RawPacket>, Error>)
        requires
            old(self).decoder.inv(old(src)@),
        ensures
            final(self).encoder == old(self).encoder,
            final(self).decoder.threshold == old(self).decoder.threshold,
            old(self).decoder.cipher is None ==> final(self).decoder.cipher is None,
            old(self).decoder.cipher matches Some(c) ==> final(self).decoder.cipher matches Some(
                c2,
            ) && c2.key@ == c.key@ && c2.wf() && c2.sr@ == cfb8_sr_after(
                c.sr@,
                old(src)@.skip(old(self).decoder.cipher_cursor as int),
            ),
            r is Ok ==> final(self).decoder.inv(final(src)@) && final(self).decoder.cipher_cursor
                == final(src)@.len(),
            ({
                let s = old(self).decoder.stream(old(src)@);
                match r {
                    Ok(Some(packet)) => {
                        &&& varint_dec32(s) matches Ok(p) && 1 <= p.1 && p.1 + frame_len(p.0)
                            <= s.len() && spec_parse_frame(
                            old(self).decoder.threshold is Some,
                            s.subrange(p.1, p.1 + frame_len(p.0) as int),
                        ) == Ok::<(i32, Seq<u8>), Error>((packet.id.0, packet.data@))
                            && final(src)@ == s.skip(p.1 + frame_len(p.0) as int)
                        &&& final(self).decoder.pending_frame_length is None
                    },
                    Ok(None) => {
                        &&& varint_dec32(s) matches Ok(p) ==> p.1 + frame_len(p.0) > s.len()
                            && final(self).decoder.pending_frame_length == Some(p.0)
                            && final(src)@ == s.skip(p.1)
                        &&& varint_dec32(s) matches Err(e) ==> e == Error::UnexpectedEof
                            && final(self).decoder.pending_frame_length is None && final(src)@
                            == plain_of(
                            &old(self).decoder.cipher,
                            old(self).decoder.cipher_cursor as int,
                            old(src)@,
                        )
                    },
                    Err(e) => {
                        &&& varint_dec32(s) matches Err(e2) ==> e == e2 && e2
                            != Error::UnexpectedEof
                        &&& varint_dec32(s) matches Ok(p) ==> p.1 + frame_len(p.0) <= s.len()
                            && spec_parse_frame(
                            old(self).decoder.threshold is Some,
                            s.subrange(p.1, p.1 + frame_len(p.0) as int),
                        ) == Err::<(i32, Seq<u8>), Error>(e)
                    },
                }
            }),
    {
        self.decoder.decode(src)
    }

    /// Appends the wire form of one packet to `dst`. The whole contract
    /// lives on `PacketEncoder::encode`; the decoder is untouched.
    pub fn encode(&mut self, packet: &RawPacket, dst: &mut Vec<u8>) -> (r: Result<(), Error>)
        requires
            old(self).encoder.wf(),
            packet.data@.len() <= 0x7fff_fff0,
        ensures
            final(self).decoder == old(self).decoder,
            final(self).encoder.wf(),
            final(self).encoder.threshold == old(self).encoder.threshold,
            match r {
                Ok(()) => {
                    &&& crate::encoder::frame_payload(old(self).encoder.threshold, packet).len()
                        <= 0x7fff_ffff
                    &&& match old(self).encoder.cipher {
                        None => final(dst)@ == old(dst)@ + plain_frame(
                            old(self).encoder.threshold,
                            packet,
                        ) && final(self).encoder.cipher is None,
                        Some(c) => final(dst)@ == old(dst)@ + cfb8_encrypt(
                            c.key@,
                            c.sr@,
                            plain_frame(old(self).encoder.threshold, packet),
                        ) && (final(self).encoder.cipher matches Some(c2) && c2.key@ == c.key@
                            && c2.sr@ == cfb8_sr_after(
                            c.sr@,
                            cfb8_encrypt(
                                c.key@,
                                c.sr@,
                                plain_frame(old(self).encoder.threshold, packet),
                            ),
                        )),
                    }
                },
                Err(e) => {
                    &&& e == Error::Overflow
                    &&& crate::encoder::frame_payload(old(self).encoder.threshold, packet).len()
                        > 0x7fff_ffff
                    &&& final(dst)@ == old(dst)@
                    &&& final(self).encoder.cipher == old(self).encoder.cipher
                },
            },
    {
        self.encoder.encode(packet, dst)
    }
}

/// A plain, uncompressed, unencrypted codec for the handshake phase:
/// it only length-prefixes an already serialized packet body.
#[derive(Debug)]
pub struct PlainCodec {
    pub protocol_version: i32,
}

impl PlainCodec {
    /// The wire form of one packet body under the plain codec.
    pub fn encode(&self, packet_bytes: &[u8]) -> (r: Vec<u8>)
        requires
            packet_bytes@.len() <= 0x7fff_ffff,
        ensures
            r@ == varint_bytes(packet_bytes@.len() as i32) + packet_bytes@,
    {
        let mut out: Vec<u8> = Vec::new();
        crate::varint::VarInt(packet_bytes.len() as i32).serialize(&mut out);
        out.extend_from_slice(packet_bytes);
        out
    }
}

/// Codec round trip under encryption, for the uncompressed transport:
/// a decoder whose cipher took over at the same shift-register state as
/// the encoder's sees exactly the plaintext frame back, and parses from
/// it exactly the packet that was encoded. Bytes framed before either
/// cipher exists are their own plaintext, so the same parse holds of
/// them with the identity in place of the cipher pair.
pub proof fn lemma_codec_crypto_roundtrip(key: Seq<u8>, sr: Seq<u8>, p: &RawPacket)
    requires
        raw_packet_bytes(p).len() <= 0x7fff_ffff,
    ensures
        ({
            let plain = plain_frame(None, p);
            let wire = cfb8_encrypt(key, sr, plain);
            &&& cfb8_decrypt(key, sr, wire) == plain
            &&& varint_dec32(plain) matches Ok(q) && q.1 + frame_len(q.0) == plain.len()
                && spec_parse_frame(false, plain.subrange(q.1, q.1 + frame_len(q.0) as int))
                == Ok::<(i32, Seq<u8>), Error>((p.id.0, p.data@))
        }),
{
    let payload = raw_packet_bytes(p);
    let plain = plain_frame(None, p);
    lemma_cfb8_self_inverse(key, sr, plain);
    lemma_varint_roundtrip(payload.len() as i32, payload);
    let q = varint_dec32(plain)->Ok_0;
    assert(plain.subrange(q.1, q.1 + frame_len(q.0) as int) =~= payload);
    lemma_varint_roundtrip(p.id.0, p.data@);
    assert(payload.skip(varint_bytes(p.id.0).len() as int) =~= p.data@);
}

} // verus!
