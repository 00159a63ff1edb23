//! A one-call inbound pipeline: decrypt a chunk, cut it into frames,
//! and split each frame into a raw packet. Compression does not apply
//! at this stage of a connection, so the pipeline has none.

use vstd::prelude::*;

use vstd::slice::slice_to_vec;

use crate::cfb8::{cfb8_decrypt, cfb8_sr_after, Cfb8Cipher};
use crate::error::Error;
use crate::frame::{spec_frames, spec_remainder, FrameDecoder};
use crate::packet::{spec_read_raw_packet, RawPacket};

verus! {

/// Decryption, framing and packet splitting, chained over each chunk.
pub struct InboundPipeline {
    pub decryption: Option<Cfb8Cipher>,
    pub frame_decoder: FrameDecoder,
}

/// The plaintext stream a pipeline state and one more chunk stand for:
/// the bytes already buffered, then the chunk as its cipher will read
/// it.
pub open spec fn pipeline_stream(d: InboundPipeline, input: Seq<u8>) -> Seq<u8> {
    d.frame_decoder.abs() + (match d.decryption {
        None => input,
        Some(c) => cfb8_decrypt(c.key@, c.sr@, input),
    })
}

impl InboundPipeline {
    /// The cipher, when present, is well-formed.
    pub open spec fn wf(&self) -> bool {
        match self.decryption {
            Some(c) => c.wf(),
            None => true,
        }
    }

    /// A fresh pipeline: plaintext, nothing buffered.
    pub fn new() -> (r: InboundPipeline)
        ensures
            r.decryption is None,
            r.frame_decoder.pending_packet_length is None,
            r.frame_decoder.buffer@ == Seq::<u8>::empty(),
            r.wf(),
    {
        InboundPipeline { decryption: None, frame_decoder: FrameDecoder::new() }
    }

    /// Starts decrypting with the shared secret. Unlike the codec's
    /// one-shot switch, a later call replaces the cipher, so the caller
    /// must not repeat it mid-stream.
    pub fn enable_crypto(&mut self, shared_secret: &[u8])
        requires
            shared_secret@.len() == 16,
        ensures
            final(self).wf(),
            final(self).decryption matches Some(c) && c.key@ == shared_secret@ && c.sr@
                == shared_secret@,
            final(self).frame_decoder == old(self).frame_decoder,
    {
        self.decryption = Some(Cfb8Cipher::new(shared_secret));
    }

    /// Decrypts one chunk, drains every frame that completes, and
    /// splits each into a raw packet, in order.
    pub fn process(&mut self, input: &[u8]) -> (r: Result<Vec<RawPacket>, Error>)
        requires
            old(self).wf(),
        ensures
            final(self).wf(),
            old(self).decryption is None ==> final(self).decryption is None,
            old(self).decryption matches Some(c) ==> (final(self).decryption matches Some(c2)
                && c2.key@ == c.key@ && c2.sr@ == cfb8_sr_after(c.sr@, input@)),
            r matches Ok(packets) ==> ({
                let s0 = pipeline_stream(*old(self), input@);
                &&& spec_frames(s0) matches Ok(fs) && packets@.len() == fs.len() && (forall|i: int|
                    0 <= i < fs.len() ==> spec_read_raw_packet(fs[i]) == Ok::<
                        (i32, Seq<u8>),
                        Error,
                    >((#[trigger] packets@[i].id.0, packets@[i].data@)))
                &&& final(self).frame_decoder.pending_packet_length == spec_remainder(s0).0
                &&& final(self).frame_decoder.buffer@ == spec_remainder(s0).1
            }),
            r matches Err(e) ==> ({
                let s0 = pipeline_stream(*old(self), input@);
                ||| spec_frames(s0) == Err::<Seq<Seq<u8>>, Error>(e)
                ||| (spec_frames(s0) matches Ok(fs) && (exists|i: int|
                    0 <= i < fs.len() && #[trigger] spec_read_raw_packet(fs[i]) == Err::<
                        (i32, Seq<u8>),
                        Error,
                    >(e)))
            }),
    {
        let ghost s0 = pipeline_stream(*self, input@);
        let mut data = slice_to_vec(input);
        match &mut self.decryption {
            Some(c) => {
                c.decrypt(&mut data);
            },
            None => {
            },
        }
        proof {
            assert(s0 == self.frame_decoder.abs() + data@);
        }
        let frames = match self.frame_decoder.decode(data.as_slice()) {
            Ok(f) => f,
            Err(e) => {
                return Err(e);
            },
        };
        let ghost fs = frames.deep_view();
        let mut packets: Vec<RawPacket> = Vec::new();
        let mut i: usize = 0;
        while i < frames.len()
            invariant
                s0 == pipeline_stream(*old(self), input@),
                self.wf(),
                old(self).decryption is None ==> self.decryption is None,
                old(self).decryption matches Some(c) ==> (self.decryption matches Some(c2)
                    && c2.key@ == c.key@ && c2.sr@ == cfb8_sr_after(c.sr@, input@)),
                spec_frames(s0) == Ok::<Seq<Seq<u8>>, Error>(fs),
                self.frame_decoder.pending_packet_length == spec_remainder(s0).0,
                self.frame_decoder.buffer@ == spec_remainder(s0).1,
                i <= frames@.len(),
                fs == frames.deep_view(),
                packets@.len() == i,
                forall|j: int|
                    0 <= j < i ==> spec_read_raw_packet(fs[j]) == Ok::<(i32, Seq<u8>), Error>(
                        (#[trigger] packets@[j].id.0, packets@[j].data@),
                    ),
            decreases frames@.len() - i,
        {
            proof {
                assert(fs[i as int] =~= frames@[i as int]@);
            }
            match RawPacket::try_from(frames[i].as_slice()) {
                Ok(p) => {
                    packets.push(p);
                },
                Err(e) => {
                    proof {
                        assert(i < fs.len() && spec_read_raw_packet(fs[i as int]) == Err::<
                            (i32, Seq<u8>),
                            Error,
                        >(e));
                        assert(exists|k: int|
                            0 <= k < fs.len() && #[trigger] spec_read_raw_packet(fs[k]) == Err::<
                                (i32, Seq<u8>),
                                Error,
                            >(e));
                    }
                    return Err(e);
                },
            }
            i = i + 1;
        }
        Ok(packets)
    }
}

} // verus!
