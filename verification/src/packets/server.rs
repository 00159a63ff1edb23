//! Serverbound packets: what a client sends during handshake, status
//! and login. Each type deserializes from a packet body (the bytes after
//! the packet id) and can serialize itself back for tests and relaying.

use vstd::prelude::*;

use vstd::utf8::encode_utf8;

use crate::datatype::{spec_read_intent, spec_read_uuid, uuid_bytes, Intent, Uuid};
use crate::error::Error;
use crate::varint::{varint_bytes, varint_dec32, VarInt};
use crate::wire::{
    be_val, byte_vec_bytes, i64_bytes, read_bool, read_i64, read_rest, read_u16,
    spec_read_byte_vec, spec_read_string, string_bytes, u16_bytes, write_byte_vec, write_i64,
    write_string, write_u16,
};

verus! {

/// The VarInt wire form of an intent code.
pub open spec fn intent_bytes(i: Intent) -> Seq<u8> {
    varint_bytes(
        match i {
            Intent::Status => 1i32,
            Intent::Login => 2i32,
            Intent::Transfer => 3i32,
        },
    )
}

/// Handshake, id 0x00: the client announces its protocol version, the
/// address it dialed, and what it intends next.
#[derive(Debug)]
pub struct Intention {
    pub protocol_version: i32,
    pub server_address: String,
    pub server_port: u16,
    pub intent: Intent,
}

/// The packet body of an `Intention`.
pub open spec fn intention_bytes(p: &Intention) -> Seq<u8> {
    varint_bytes(p.protocol_version) + string_bytes(p.server_address@) + u16_bytes(p.server_port)
        + intent_bytes(p.intent)
}

/// What reading an `Intention` body at `pos` yields, as
/// `(protocol_version, server_address, server_port, intent, new_pos)`.
pub open spec fn spec_read_intention(s: Seq<u8>, pos: int) -> Result<
    (i32, Seq<char>, u16, Intent, int),
    Error,
> {
    match varint_dec32(s.skip(pos)) {
        Ok((pv, used)) => match spec_read_string(s, pos + used) {
            Ok((addr, p2)) => if p2 + 2 <= s.len() {
                match spec_read_intent(s, p2 + 2) {
                    Ok((it, p3)) => Ok(
                        (pv, addr, be_val(s.subrange(p2, p2 + 2)) as u16, it, p3),
                    ),
                    Err(e) => Err(e),
                }
            } else {
                Err(Error::UnexpectedEof)
            },
            Err(e) => Err(e),
        },
        Err(e) => Err(e),
    }
}

impl Intention {
    /// Appends the packet body of `self`.
    pub fn serialize(&self, out: &mut Vec<u8>)
        requires
            encode_utf8(self.server_address@).len() <= 0x7fff_ffff,
        ensures
            final(out)@ == old(out)@ + intention_bytes(self),
    {
        VarInt(self.protocol_version).serialize(out);
        write_string(out, self.server_address.as_str());
        write_u16(out, self.server_port);
        VarInt(self.intent.code()).serialize(out);
        proof {
            assert(out@ =~= old(out)@ + intention_bytes(self));
        }
    }

    /// Reads an `Intention` body at `pos`.
    pub fn deserialize(data: &[u8], pos: usize) -> (r: Result<(Intention, usize), Error>)
        requires
            pos <= data@.len(),
        ensures
            match r {
                Ok(p) => spec_read_intention(data@, pos as int) == Ok::<
                    (i32, Seq<char>, u16, Intent, int),
                    Error,
                >((p.0.protocol_version, p.0.server_address@, p.0.server_port, p.0.intent, p.1 as int)),
                Err(e) => spec_read_intention(data@, pos as int) == Err::<
                    (i32, Seq<char>, u16, Intent, int),
                    Error,
                >(e),
            },
    {
        let tail = vstd::slice::slice_subrange(data, pos, data.len());
        proof {
            assert(tail@ =~= data@.skip(pos as int));
        }
        let (pv, used) = match VarInt::deserialize(tail) {
            Ok(p) => p,
            Err(e) => {
                return Err(e);
            },
        };
        proof {
            crate::varint::lemma_scan_props(tail@);
        }
        let (addr, p2) = match crate::wire::read_string(data, pos + used) {
            Ok(p) => p,
            Err(e) => {
                return Err(e);
            },
        };
        let (port, p3) = match read_u16(data, p2) {
            Ok(p) => p,
            Err(e) => {
                return Err(e);
            },
        };
        let (it, p4) = match Intent::deserialize(data, p3) {
            Ok(p) => p,
            Err(e) => {
                return Err(e);
            },
        };
        Ok(
            (
                Intention {
                    protocol_version: pv.0,
                    server_address: addr,
                    server_port: port,
                    intent: it,
                },
                p4,
            ),
        )
    }
}

/// Handshake round trip: reading an intention back out of its own wire
/// form recovers every field, whatever bytes follow.
pub proof fn lemma_intention_roundtrip(p: &Intention, rest: Seq<u8>)
    requires
        encode_utf8(p.server_address@).len() <= 0x7fff_ffff,
    ensures
        spec_read_intention(intention_bytes(p) + rest, 0) == Ok::<
            (i32, Seq<char>, u16, Intent, int),
            Error,
        >(
            (
                p.protocol_version,
                p.server_address@,
                p.server_port,
                p.intent,
                intention_bytes(p).len() as int,
            ),
        ),
{
    let s = intention_bytes(p) + rest;
    let vb = crate::varint::varint_bytes(p.protocol_version);
    let sb = string_bytes(p.server_address@);
    let ub = u16_bytes(p.server_port);
    let ib = intent_bytes(p.intent);
    assert(s.skip(0) =~= vb + (sb + (ub + (ib + rest))));
    crate::varint::lemma_varint_roundtrip(p.protocol_version, sb + (ub + (ib + rest)));
    let u1 = vb.len() as int;
    assert(vb + string_bytes(p.server_address@) + (ub + (ib + rest)) =~= s);
    crate::wire::lemma_string_roundtrip(vb, p.server_address@, ub + (ib + rest));
    let p2 = u1 + sb.len() as int;
    crate::wire::lemma_pow256_bounds();
    crate::wire::lemma_be_roundtrip(p.server_port as nat, 2);
    assert(ub.len() == 2);
    assert(s.subrange(p2, p2 + 2) =~= ub);
    let code: i32 = match p.intent {
        Intent::Status => 1,
        Intent::Login => 2,
        Intent::Transfer => 3,
    };
    crate::varint::lemma_varint_roundtrip(code, rest);
    assert(s.skip(p2 + 2) =~= crate::varint::varint_bytes(code) + rest);
}

/// Status, id 0x00: a bare request for the status JSON.
#[derive(Debug, Clone, Copy, PartialEq, Eq, Structural)]
pub struct StatusRequest;

impl StatusRequest {
    /// A status request has an empty body.
    pub fn deserialize(_data: &[u8], pos: usize) -> (r: (StatusRequest, usize))
        ensures
            r.1 == pos,
    {
        (StatusRequest, pos)
    }
}

/// Status, id 0x01: a ping carrying the client's timestamp.
#[derive(Debug, Clone, Copy, PartialEq, Eq, Structural)]
pub struct PingRequest(pub i64);

impl PingRequest {
    /// Appends the packet body of `self`: the timestamp, big-endian.
    pub fn serialize(&self, out: &mut Vec<u8>)
        ensures
            final(out)@ == old(out)@ + i64_bytes(self.0),
    {
        write_i64(out, self.0);
    }

    /// Reads a `PingRequest` body at `pos`.
    pub fn deserialize(data: &[u8], pos: usize) -> (r: Result<(PingRequest, usize), Error>)
        requires
            pos <= data@.len(),
        ensures
            match r {
                Ok(p) => pos + 8 <= data@.len() && p.0.0 == crate::varint::i64_of_bits(
                    be_val(data@.subrange(pos as int, pos + 8)),
                ) && p.1 == pos + 8,
                Err(e) => pos + 8 > data@.len() && e == Error::UnexpectedEof,
            },
    {
        match read_i64(data, pos) {
            Ok((v, n)) => Ok((PingRequest(v), n)),
            Err(e) => Err(e),
        }
    }
}

/// Login, id 0x00: the client introduces itself by name and UUID.
#[derive(Debug)]
pub struct Hello {
    pub name: String,
    pub player_uuid: Uuid,
}

/// The packet body of a serverbound `Hello`.
pub open spec fn hello_bytes(p: &Hello) -> Seq<u8> {
    string_bytes(p.name@) + uuid_bytes(p.player_uuid)
}

/// What reading a serverbound `Hello` body at `pos` yields.
pub open spec fn spec_read_hello(s: Seq<u8>, pos: int) -> Result<(Seq<char>, Uuid, int), Error> {
    match spec_read_string(s, pos) {
        Ok((name, p2)) => match spec_read_uuid(s, p2) {
            Ok((u, p3)) => Ok((name, u, p3)),
            Err(e) => Err(e),
        },
        Err(e) => Err(e),
    }
}

impl Hello {
    /// Appends the packet body of `self`.
    pub fn serialize(&self, out: &mut Vec<u8>)
        requires
            encode_utf8(self.name@).len() <= 0x7fff_ffff,
        ensures
            final(out)@ == old(out)@ + hello_bytes(self),
    {
        write_string(out, self.name.as_str());
        self.player_uuid.serialize(out);
        proof {
            assert(out@ =~= old(out)@ + hello_bytes(self));
        }
    }

    /// Reads a serverbound `Hello` body at `pos`.
    pub fn deserialize(data: &[u8], pos: usize) -> (r: Result<(Hello, usize), Error>)
        requires
            pos <= data@.len(),
        ensures
            match r {
                Ok(p) => spec_read_hello(data@, pos as int) == Ok::<(Seq<char>, Uuid, int), Error>(
                    (p.0.name@, p.0.player_uuid, p.1 as int),
                ),
                Err(e) => spec_read_hello(data@, pos as int) == Err::<(Seq<char>, Uuid, int), Error>(
                    e,
                ),
            },
    {
        let (name, p2) = match crate::wire::read_string(data, pos) {
            Ok(p) => p,
            Err(e) => {
                return Err(e);
            },
        };
        let (u, p3) = match Uuid::deserialize(data, p2) {
            Ok(p) => p,
            Err(e) => {
                return Err(e);
            },
        };
        Ok((Hello { name, player_uuid: u }, p3))
    }
}

/// Login round trip: reading a hello back out of its own wire form
/// recovers the name and the UUID, whatever bytes follow.
pub proof fn lemma_hello_roundtrip(p: &Hello, rest: Seq<u8>)
    requires
        encode_utf8(p.name@).len() <= 0x7fff_ffff,
    ensures
        spec_read_hello(hello_bytes(p) + rest, 0) == Ok::<(Seq<char>, Uuid, int), Error>(
            (p.name@, p.player_uuid, hello_bytes(p).len() as int),
        ),
{
    let s = hello_bytes(p) + rest;
    let sb = string_bytes(p.name@);
    let uu = uuid_bytes(p.player_uuid);
    assert(Seq::<u8>::empty() + string_bytes(p.name@) + (uu + rest) =~= s);
    crate::wire::lemma_string_roundtrip(Seq::empty(), p.name@, uu + rest);
    let p2 = sb.len() as int;
    crate::wire::lemma_pow256_bounds();
    crate::wire::lemma_be_roundtrip(p.player_uuid.msb as nat, 8);
    crate::wire::lemma_be_roundtrip(p.player_uuid.lsb as nat, 8);
    assert(s.subrange(p2, p2 + 8) =~= crate::wire::be_bytes(p.player_uuid.msb as nat, 8));
    assert(s.subrange(p2 + 8, p2 + 16) =~= crate::wire::be_bytes(p.player_uuid.lsb as nat, 8));
}

/// Login, id 0x01: the RSA-encrypted shared secret and verify token.
#[derive(Debug)]
pub struct Key {
    pub shared_secret: Vec<u8>,
    pub verify_token: Vec<u8>,
}

/// The packet body of a `Key`.
pub open spec fn key_bytes(p: &Key) -> Seq<u8>
    recommends
        p.shared_secret@.len() <= 0x7fff_ffff,
        p.verify_token@.len() <= 0x7fff_ffff,
{
    byte_vec_bytes(p.shared_secret@) + byte_vec_bytes(p.verify_token@)
}

/// What reading a `Key` body at `pos` yields.
pub open spec fn spec_read_key(s: Seq<u8>, pos: int) -> Result<(Seq<u8>, Seq<u8>, int), Error> {
    match spec_read_byte_vec(s, pos) {
        Ok((sec, p2)) => match spec_read_byte_vec(s, p2) {
            Ok((tok, p3)) => Ok((sec, tok, p3)),
            Err(e) => Err(e),
        },
        Err(e) => Err(e),
    }
}

impl Key {
    /// Appends the packet body of `self`.
    pub fn serialize(&self, out: &mut Vec<u8>)
        requires
            self.shared_secret@.len() <= 0x7fff_ffff,
            self.verify_token@.len() <= 0x7fff_ffff,
        ensures
            final(out)@ == old(out)@ + key_bytes(self),
    {
        write_byte_vec(out, self.shared_secret.as_slice());
        write_byte_vec(out, self.verify_token.as_slice());
        proof {
            assert(out@ =~= old(out)@ + key_bytes(self));
        }
    }

    /// Reads a `Key` body at `pos`.
    pub fn deserialize(data: &[u8], pos: usize) -> (r: Result<(Key, usize), Error>)
        requires
            pos <= data@.len(),
        ensures
            match r {
                Ok(p) => spec_read_key(data@, pos as int) == Ok::<(Seq<u8>, Seq<u8>, int), Error>(
                    (p.0.shared_secret@, p.0.verify_token@, p.1 as int),
                ),
                Err(e) => spec_read_key(data@, pos as int) == Err::<(Seq<u8>, Seq<u8>, int), Error>(
                    e,
                ),
            },
    {
        let (sec, p2) = match crate::wire::read_byte_vec(data, pos) {
            Ok(p) => p,
            Err(e) => {
                return Err(e);
            },
        };
        let (tok, p3) = match crate::wire::read_byte_vec(data, p2) {
            Ok(p) => p,
            Err(e) => {
                return Err(e);
            },
        };
        Ok((Key { shared_secret: sec, verify_token: tok }, p3))
    }
}

/// Login, id 0x02: the answer to a custom query; the payload takes the
/// rest of the body when present.
#[derive(Debug)]
pub struct CustomQueryAnswer {
    pub message_id: i32,
    pub data: Option<Vec<u8>>,
}

/// What reading a `CustomQueryAnswer` body at `pos` yields.
pub open spec fn spec_read_custom_query_answer(s: Seq<u8>, pos: int) -> Result<
    (i32, Option<Seq<u8>>, int),
    Error,
> {
    match varint_dec32(s.skip(pos)) {
        Ok((id, used)) => if pos + used + 1 <= s.len() {
            if s[pos + used] == 1u8 {
                Ok((id, Some(s.skip(pos + used + 1)), s.len() as int))
            } else {
                Ok((id, None, pos + used + 1))
            }
        } else {
            Err(Error::UnexpectedEof)
        },
        Err(e) => Err(e),
    }
}

impl CustomQueryAnswer {
    /// Reads a `CustomQueryAnswer` body at `pos`.
    pub fn deserialize(data: &[u8], pos: usize) -> (r: Result<(CustomQueryAnswer, usize), Error>)
        requires
            pos <= data@.len(),
        ensures
            match r {
                Ok(p) => spec_read_custom_query_answer(data@, pos as int) == Ok::<
                    (i32, Option<Seq<u8>>, int),
                    Error,
                >((
                    p.0.message_id,
                    match p.0.data {
                        Some(ref d) => Some(d@),
                        None => None,
                    },
                    p.1 as int,
                )),
                Err(e) => spec_read_custom_query_answer(data@, pos as int) == Err::<
                    (i32, Option<Seq<u8>>, int),
                    Error,
                >(e),
            },
    {
        let tail = vstd::slice::slice_subrange(data, pos, data.len());
        proof {
            assert(tail@ =~= data@.skip(pos as int));
        }
        let (id, used) = match VarInt::deserialize(tail) {
            Ok(p) => p,
            Err(e) => {
                return Err(e);
            },
        };
        proof {
            crate::varint::lemma_scan_props(tail@);
        }
        let (present, p2) = match read_bool(data, pos + used) {
            Ok(p) => p,
            Err(e) => {
                return Err(e);
            },
        };
        if present {
            let rest = read_rest(data, p2);
            Ok((CustomQueryAnswer { message_id: id.0, data: Some(rest) }, data.len()))
        } else {
            Ok((CustomQueryAnswer { message_id: id.0, data: None }, p2))
        }
    }
}

/// Login, id 0x03: the client acknowledges the login and moves to
/// configuration.
#[derive(Debug, Clone, Copy, PartialEq, Eq, Structural)]
pub struct LoginAcknowledged;

impl LoginAcknowledged {
    /// A login acknowledgement has an empty body.
    pub fn deserialize(_data: &[u8], pos: usize) -> (r: (LoginAcknowledged, usize))
        ensures
            r.1 == pos,
    {
        (LoginAcknowledged, pos)
    }
}

/// Login, id 0x04: a stored cookie handed back, if the client had one.
#[derive(Debug)]
pub struct CookieResponse {
    pub key: String,
    pub data: Option<Vec<u8>>,
}

/// What reading a `CookieResponse` body at `pos` yields.
pub open spec fn spec_read_cookie_response(s: Seq<u8>, pos: int) -> Result<
    (Seq<char>, Option<Seq<u8>>, int),
    Error,
> {
    match spec_read_string(s, pos) {
        Ok((key, p2)) => if p2 + 1 <= s.len() {
            if s[p2] == 1u8 {
                match spec_read_byte_vec(s, p2 + 1) {
                    Ok((d, p3)) => Ok((key, Some(d), p3)),
                    Err(e) => Err(e),
                }
            } else {
                Ok((key, None, p2 + 1))
            }
        } else {
            Err(Error::UnexpectedEof)
        },
        Err(e) => Err(e),
    }
}

impl CookieResponse {
    /// Reads a `CookieResponse` body at `pos`.
    pub fn deserialize(data: &[u8], pos: usize) -> (r: Result<(CookieResponse, usize), Error>)
        requires
            pos <= data@.len(),
        ensures
            match r {
                Ok(p) => spec_read_cookie_response(data@, pos as int) == Ok::<
                    (Seq<char>, Option<Seq<u8>>, int),
                    Error,
                >((
                    p.0.key@,
                    match p.0.data {
                        Some(ref d) => Some(d@),
                        None => None,
                    },
                    p.1 as int,
                )),
                Err(e) => spec_read_cookie_response(data@, pos as int) == Err::<
                    (Seq<char>, Option<Seq<u8>>, int),
                    Error,
                >(e),
            },
    {
        let (key, p2) = match crate::wire::read_string(data, pos) {
            Ok(p) => p,
            Err(e) => {
                return Err(e);
            },
        };
        let (present, p3) = match read_bool(data, p2) {
            Ok(p) => p,
            Err(e) => {
                return Err(e);
            },
        };
        if present {
            let (d, p4) = match crate::wire::read_byte_vec(data, p3) {
                Ok(p) => p,
                Err(e) => {
                    return Err(e);
                },
            };
            Ok((CookieResponse { key, data: Some(d) }, p4))
        } else {
            Ok((CookieResponse { key, data: None }, p3))
        }
    }
}

/// All packets a client may send while in the handshaking state.
#[derive(Debug)]
pub enum HandshakingIncoming {
    Intention(Intention),
}

impl HandshakingIncoming {
    /// Reads a packet id and then the matching handshaking packet body.
    /// An unknown id fails with `UnknownPacket`.
    pub fn deserialize(data: &[u8]) -> (r: Result<HandshakingIncoming, Error>)
        ensures
            match r {
                Ok(p) => match varint_dec32(data@) {
                    Ok((id, used)) => id == 0 && (p matches HandshakingIncoming::Intention(q)
                        && (spec_read_intention(data@, used) matches Ok(v) && v.0
                        == q.protocol_version && v.1 == q.server_address@ && v.2 == q.server_port
                        && v.3 == q.intent)),
                    Err(_) => false,
                },
                Err(e) => match varint_dec32(data@) {
                    Ok((id, used)) => if id == 0 {
                        &&& spec_read_intention(data@, used) matches Err(e2)
                        &&& e == e2
                    } else {
                        e == Error::UnknownPacket(id)
                    },
                    Err(e2) => e == e2,
                },
            },
    {
        let (id, used) = match VarInt::deserialize(data) {
            Ok(p) => p,
            Err(e) => {
                return Err(e);
            },
        };
        proof {
            crate::varint::lemma_scan_props(data@);
        }
        if id.0 == 0 {
            match Intention::deserialize(data, used) {
                Ok((p, _)) => Ok(HandshakingIncoming::Intention(p)),
                Err(e) => Err(e),
            }
        } else {
            Err(Error::UnknownPacket(id.0))
        }
    }
}

/// All packets a client may send while in the status state.
#[derive(Debug)]
pub enum StatusIncoming {
    StatusRequest(StatusRequest),
    PingRequest(PingRequest),
}

impl StatusIncoming {
    /// Reads a packet id and then the matching status packet body. An
    /// unknown id fails with `UnknownPacket`.
    pub fn deserialize(data: &[u8]) -> (r: Result<StatusIncoming, Error>)
        ensures
            match r {
                Ok(p) => match varint_dec32(data@) {
                    Ok((id, used)) => (id == 0 && p matches StatusIncoming::StatusRequest(_)) || (
                    id == 1 && (p matches StatusIncoming::PingRequest(q) && used + 8
                        <= data@.len() && q.0 == crate::varint::i64_of_bits(
                        be_val(data@.subrange(used, used + 8)),
                    ))),
                    Err(_) => false,
                },
                Err(e) => match varint_dec32(data@) {
                    Ok((id, used)) => if id == 1 {
                        used + 8 > data@.len() && e == Error::UnexpectedEof
                    } else {
                        id != 0 && e == Error::UnknownPacket(id)
                    },
                    Err(e2) => e == e2,
                },
            },
    {
        let (id, used) = match VarInt::deserialize(data) {
            Ok(p) => p,
            Err(e) => {
                return Err(e);
            },
        };
        proof {
            crate::varint::lemma_scan_props(data@);
        }
        if id.0 == 0 {
            let (p, _) = StatusRequest::deserialize(data, used);
            Ok(StatusIncoming::StatusRequest(p))
        } else if id.0 == 1 {
            match PingRequest::deserialize(data, used) {
                Ok((p, _)) => Ok(StatusIncoming::PingRequest(p)),
                Err(e) => Err(e),
            }
        } else {
            Err(Error::UnknownPacket(id.0))
        }
    }
}

} // verus!
