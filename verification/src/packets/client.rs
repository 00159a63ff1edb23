//! Clientbound packets: what the gateway sends during status and login.

use vstd::prelude::*;

use vstd::utf8::encode_utf8;

use crate::datatype::{profile_bytes, profile_wf, text_component_bytes, GameProfile, TextComponent};
use crate::varint::{varint_bytes, VarInt};
use crate::wire::{
    bool_bytes, byte_vec_bytes, i64_bytes, string_bytes, write_bool, write_byte_vec, write_i64,
    write_string,
};

verus! {

/// Status, id 0x00: the status JSON the gateway answers with.
#[derive(Debug)]
pub struct StatusResponse(pub String);

impl StatusResponse {
    /// Appends the packet body of `self`: one length-prefixed string.
    pub fn serialize(&self, out: &mut Vec<u8>)
        requires
            encode_utf8(self.0@).len() <= 0x7fff_ffff,
        ensures
            final(out)@ == old(out)@ + string_bytes(self.0@),
    {
        write_string(out, self.0.as_str());
    }
}

/// Status, id 0x01: the pong echoing a ping's timestamp.
#[derive(Debug, Clone, Copy, PartialEq, Eq, Structural)]
pub struct PongResponse(pub i64);

impl PongResponse {
    /// Appends the packet body of `self`: the timestamp, big-endian.
    pub fn serialize(&self, out: &mut Vec<u8>)
        ensures
            final(out)@ == old(out)@ + i64_bytes(self.0),
    {
        write_i64(out, self.0);
    }
}

/// Login, id 0x00: the reason a login is being refused.
#[derive(Debug)]
pub struct LoginDisconnect(pub TextComponent);

impl LoginDisconnect {
    /// Appends the packet body of `self`.
    pub fn serialize(&self, out: &mut Vec<u8>)
        requires
            encode_utf8(self.0.0@).len() <= 0x7fff_ffff,
        ensures
            final(out)@ == old(out)@ + text_component_bytes(&self.0),
    {
        self.0.serialize(out);
    }
}

/// Login, id 0x01: the gateway offers its RSA public key and a fresh
/// verify token, asking the client to start encryption.
#[derive(Debug)]
pub struct Hello {
    pub server_id: String,
    pub public_key: Vec<u8>,
    pub verify_token: Vec<u8>,
    pub should_authenticate: bool,
}

/// The packet body of a clientbound `Hello`: server id, length-prefixed
/// public key, 32 raw token bytes, and the authentication flag.
pub open spec fn server_hello_bytes(p: &Hello) -> Seq<u8> {
    string_bytes(p.server_id@) + byte_vec_bytes(p.public_key@) + p.verify_token@ + bool_bytes(
        p.should_authenticate,
    )
}

impl Hello {
    /// Appends the packet body of `self`.
    pub fn serialize(&self, out: &mut Vec<u8>)
        requires
            encode_utf8(self.server_id@).len() <= 0x7fff_ffff,
            self.public_key@.len() <= 0x7fff_ffff,
            self.verify_token@.len() == 32,
        ensures
            final(out)@ == old(out)@ + server_hello_bytes(self),
    {
        write_string(out, self.server_id.as_str());
        write_byte_vec(out, self.public_key.as_slice());
        out.extend_from_slice(self.verify_token.as_slice());
        write_bool(out, self.should_authenticate);
        proof {
            assert(out@ =~= old(out)@ + server_hello_bytes(self));
        }
    }
}

/// Login, id 0x02: the profile under which the login finished.
#[derive(Debug)]
pub struct LoginFinished(pub GameProfile);

impl LoginFinished {
    /// Appends the packet body of `self`.
    pub fn serialize(&self, out: &mut Vec<u8>)
        requires
            profile_wf(&self.0),
        ensures
            final(out)@ == old(out)@ + profile_bytes(&self.0),
    {
        self.0.serialize(out);
    }
}

/// Login, id 0x03: the compression threshold that applies from now on.
#[derive(Debug, Clone, Copy, PartialEq, Eq, Structural)]
pub struct LoginCompression(pub i32);

impl LoginCompression {
    /// Appends the packet body of `self`: one VarInt threshold.
    pub fn serialize(&self, out: &mut Vec<u8>)
        ensures
            final(out)@ == old(out)@ + varint_bytes(self.0),
    {
        VarInt(self.0).serialize(out);
    }
}

/// Login, id 0x04: a custom query; its payload takes the rest of the body.
#[derive(Debug)]
pub struct CustomQuery {
    pub message_id: i32,
    pub channel: String,
    pub data: Vec<u8>,
}

/// The packet body of a `CustomQuery`.
pub open spec fn custom_query_bytes(p: &CustomQuery) -> Seq<u8> {
    varint_bytes(p.message_id) + string_bytes(p.channel@) + p.data@
}

impl CustomQuery {
    /// Appends the packet body of `self`.
    pub fn serialize(&self, out: &mut Vec<u8>)
        requires
            encode_utf8(self.channel@).len() <= 0x7fff_ffff,
        ensures
            final(out)@ == old(out)@ + custom_query_bytes(self),
    {
        VarInt(self.message_id).serialize(out);
        write_string(out, self.channel.as_str());
        out.extend_from_slice(self.data.as_slice());
        proof {
            assert(out@ =~= old(out)@ + custom_query_bytes(self));
        }
    }
}

/// Login, id 0x05: the gateway asks for a stored cookie by key.
#[derive(Debug)]
pub struct CookieRequest(pub String);

impl CookieRequest {
    /// Appends the packet body of `self`: one length-prefixed string.
    pub fn serialize(&self, out: &mut Vec<u8>)
        requires
            encode_utf8(self.0@).len() <= 0x7fff_ffff,
        ensures
            final(out)@ == old(out)@ + string_bytes(self.0@),
    {
        write_string(out, self.0.as_str());
    }
}

/// Every packet the gateway sends while a connection is in the status
/// state, with its packet id.
#[derive(Debug)]
pub enum StatusOutgoing {
    StatusResponse(StatusResponse),
    PongResponse(PongResponse),
}

/// The id-prefixed wire form of a status packet.
pub open spec fn status_outgoing_bytes(p: &StatusOutgoing) -> Seq<u8> {
    match p {
        StatusOutgoing::StatusResponse(sr) => varint_bytes(0) + string_bytes(sr.0@),
        StatusOutgoing::PongResponse(pr) => varint_bytes(1) + i64_bytes(pr.0),
    }
}

impl StatusOutgoing {
    /// Appends the packet id and body of `self`.
    pub fn serialize(&self, out: &mut Vec<u8>)
        requires
            match self {
                StatusOutgoing::StatusResponse(sr) => encode_utf8(sr.0@).len() <= 0x7fff_ffff,
                StatusOutgoing::PongResponse(_) => true,
            },
        ensures
            final(out)@ == old(out)@ + status_outgoing_bytes(self),
    {
        match self {
            StatusOutgoing::StatusResponse(sr) => {
                VarInt(0).serialize(out);
                sr.serialize(out);
            },
            StatusOutgoing::PongResponse(pr) => {
                VarInt(1).serialize(out);
                pr.serialize(out);
            },
        }
        proof {
            assert(out@ =~= old(out)@ + status_outgoing_bytes(self));
        }
    }
}

} // verus!
