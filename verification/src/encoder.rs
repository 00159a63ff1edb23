//! The outbound packet encoder: serializes a raw packet, applies the
//! compression layer when enabled, prefixes the frame length, and
//! encrypts the whole produced range through the outbound cipher.

use vstd::prelude::*;

use crate::cfb8::{cfb8_encrypt, cfb8_sr_after, Cfb8Cipher};
use crate::compress::{compress_frame, compress_frame_bytes};
use crate::error::Error;
use crate::packet::{raw_packet_bytes, RawPacket};
use crate::varint::{varint_bytes, VarInt};

verus! {

/// The frame payload of a packet under the given compression setting:
/// its id-prefixed bytes, through the compression layer when enabled.
pub open spec fn frame_payload(threshold: Option<usize>, p: &RawPacket) -> Seq<u8> {
    match threshold {
        Some(t) => compress_frame_bytes(t as int, raw_packet_bytes(p)),
        None => raw_packet_bytes(p),
    }
}

/// The plaintext wire form of a packet: the frame payload behind its
/// VarInt length prefix.
pub open spec fn plain_frame(threshold: Option<usize>, p: &RawPacket) -> Seq<u8>
    recommends
        frame_payload(threshold, p).len() <= 0x7fff_ffff,
{
    varint_bytes(frame_payload(threshold, p).len() as i32) + frame_payload(threshold, p)
}

/// Serializes, compresses, frames and encrypts outbound packets.
pub struct PacketEncoder {
    pub cipher: Option<Cfb8Cipher>,
    pub threshold: Option<usize>,
}

impl PacketEncoder {
    /// The cipher, when present, is well-formed.
    pub open spec fn wf(&self) -> bool {
        match self.cipher {
            Some(c) => c.wf(),
            None => true,
        }
    }

    /// A fresh encoder: no cipher, no compression.
    pub fn new() -> (r: PacketEncoder)
        ensures
            r.cipher is None,
            r.threshold is None,
            r.wf(),
    {
        PacketEncoder { cipher: None, threshold: None }
    }

    /// Starts encrypting with the shared secret. A second call changes
    /// nothing: encryption is one-shot.
    pub fn enable_crypto(&mut self, shared_secret: &[u8])
        requires
            shared_secret@.len() == 16,
        ensures
            final(self).threshold == old(self).threshold,
            old(self).cipher is Some ==> final(self).cipher == old(self).cipher,
            old(self).cipher is None ==> (final(self).cipher matches Some(c) && c.wf() && c.key@
                == shared_secret@ && c.sr@ == shared_secret@),
    {
        if self.cipher.is_none() {
            self.cipher = Some(Cfb8Cipher::new(shared_secret));
        }
    }

    /// Turns compression on at the given threshold.
    pub fn enable_compression(&mut self, threshold: usize)
        ensures
            final(self).threshold == Some(threshold),
            final(self).cipher == old(self).cipher,
    {
        self.threshold = Some(threshold);
    }

    /// Turns compression off.
    pub fn disable_compression(&mut self)
        ensures
            final(self).threshold is None,
            final(self).cipher == old(self).cipher,
    {
        self.threshold = None;
    }

    /// Appends the full wire form of one packet to `dst`: the length
    /// prefix and the (possibly compressed) payload, both encrypted
    /// when the cipher is on. Fails only when the payload outgrows the
    /// 31-bit length prefix, and then changes nothing.
    pub fn encode(&mut self, packet: &RawPacket, dst: &mut Vec<u8>) -> (r: Result<(), Error>)
        requires
            old(self).wf(),
            packet.data@.len() <= 0x7fff_fff0,
        ensures
            final(self).wf(),
            final(self).threshold == old(self).threshold,
            match r {
                Ok(()) => {
                    &&& frame_payload(old(self).threshold, packet).len() <= 0x7fff_ffff
                    &&& match old(self).cipher {
                        None => final(dst)@ == old(dst)@ + plain_frame(
                            old(self).threshold,
                            packet,
                        ) && final(self).cipher is None,
                        Some(c) => final(dst)@ == old(dst)@ + cfb8_encrypt(
                            c.key@,
                            c.sr@,
                            plain_frame(old(self).threshold, packet),
                        ) && (final(self).cipher matches Some(c2) && c2.key@ == c.key@ && c2.sr@
                            == cfb8_sr_after(
                            c.sr@,
                            cfb8_encrypt(c.key@, c.sr@, plain_frame(old(self).threshold, packet)),
                        )),
                    }
                },
                Err(e) => {
                    &&& e == Error::Overflow
                    &&& frame_payload(old(self).threshold, packet).len() > 0x7fff_ffff
                    &&& final(dst)@ == old(dst)@
                    &&& final(self).cipher == old(self).cipher
                },
            },
    {
        let mut body: Vec<u8> = Vec::new();
        packet.serialize(&mut body);
        proof {
            crate::varint::lemma_pow128_bounds();
            crate::varint::lemma_enc_len(crate::varint::i32_bits(packet.id.0), 5);
        }
        let mut framed: Vec<u8> = match self.threshold {
            Some(t) => compress_frame(t, body.as_slice()),
            None => body,
        };
        if framed.len() > 0x7fff_ffff {
            return Err(Error::Overflow);
        }
        let mut plain: Vec<u8> = Vec::new();
        VarInt(framed.len() as i32).serialize(&mut plain);
        plain.append(&mut framed);
        proof {
            assert(plain@ =~= plain_frame(old(self).threshold, packet));
        }
        match &mut self.cipher {
            Some(c) => {
                c.encrypt(&mut plain);
            },
            None => {
            },
        }
        dst.append(&mut plain);
        Ok(())
    }
}

} // verus!
