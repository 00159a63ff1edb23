//! The raw packet: a VarInt packet id and the payload bytes that
//! follow it inside one frame.

use vstd::prelude::*;

use vstd::slice::{slice_subrange, slice_to_vec};

use crate::error::Error;
use crate::varint::{varint_bytes, varint_dec32, VarInt};

verus! {

/// A packet as it leaves the frame layer: its id, and every payload
/// byte after the id. The payload may be empty.
#[derive(Debug, Clone)]
pub struct RawPacket {
    pub id: VarInt,
    pub data: Vec<u8>,
}

/// The wire form of a raw packet: the VarInt id, then the payload.
pub open spec fn raw_packet_bytes(p: &RawPacket) -> Seq<u8> {
    varint_bytes(p.id.0) + p.data@
}

/// What splitting a frame body into id and payload yields.
pub open spec fn spec_read_raw_packet(s: Seq<u8>) -> Result<(i32, Seq<u8>), Error> {
    match varint_dec32(s) {
        Ok((id, used)) => Ok((id, s.skip(used))),
        Err(e) => Err(e),
    }
}

impl RawPacket {
    /// A raw packet with the given id and payload.
    pub fn new(id: i32, data: Vec<u8>) -> (r: RawPacket)
        ensures
            r.id.0 == id,
            r.data@ == data@,
    {
        RawPacket { id: VarInt(id), data }
    }

    /// Splits a frame body into the packet id and the payload.
    pub fn try_from(frame: &[u8]) -> (r: Result<RawPacket, Error>)
        ensures
            match r {
                Ok(p) => spec_read_raw_packet(frame@) == Ok::<(i32, Seq<u8>), Error>(
                    (p.id.0, p.data@),
                ),
                Err(e) => spec_read_raw_packet(frame@) == Err::<(i32, Seq<u8>), Error>(e),
            },
    {
        let (id, used) = match VarInt::deserialize(frame) {
            Ok(p) => p,
            Err(e) => {
                return Err(e);
            },
        };
        let data = slice_to_vec(slice_subrange(frame, used, frame.len()));
        proof {
            assert(data@ =~= frame@.skip(used as int));
        }
        Ok(RawPacket { id, data })
    }

    /// Appends the wire form of `self`: the VarInt id, then the payload.
    pub fn serialize(&self, out: &mut Vec<u8>)
        ensures
            final(out)@ == old(out)@ + raw_packet_bytes(self),
    {
        self.id.serialize(out);
        out.extend_from_slice(self.data.as_slice());
        proof {
            assert(out@ =~= old(out)@ + raw_packet_bytes(self));
        }
    }
}

} // verus!
