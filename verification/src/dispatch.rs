//! Dispatchers: per-(state, version) consumers of raw packets that
//! emit intent-level actions. Dispatch is a pure function of the
//! dispatcher state and the packet — the contracts below pin every
//! emitted action down — with the one exception that building a login
//! dispatcher draws a fresh verify token and RSA key pair.

use vstd::prelude::*;

use vstd::string::StringExecFns;
use vstd::utf8::encode_utf8;

use rand::Rng;
use rsa::pkcs8::{DecodePrivateKey, EncodePrivateKey, EncodePublicKey};

use crate::datatype::{uuid_bytes, GameProfile, Intent, Uuid};
use crate::error::Error;
use crate::packet::RawPacket;
use crate::packets::client;
use crate::packets::server::{spec_read_hello, spec_read_intention, spec_read_key, Hello, Key};
use crate::varint::{i32_bits, i32_to_u32, varint_bytes};
use crate::wire::{bool_bytes, byte_vec_bytes, i64_bytes, read_i64, string_bytes};

verus! {

/// Where a connection stands in the protocol.
#[derive(Debug, Clone, Copy, PartialEq, Eq, Structural)]
pub enum ProtocolState {
    Handshake,
    Status,
    Login,
    Configuration,
}

/// One intent-level effect a dispatcher asks the driver to realize,
/// in order.
#[derive(Debug, Clone)]
pub enum Action {
    /// Encrypt both directions with this 16-byte shared secret from
    /// now on. One-shot per direction.
    EnableEncryption(Vec<u8>),
    /// Compress both directions at this threshold from now on.
    EnableCompression(usize),
    /// The connection's protocol state changes.
    ProtocolState(ProtocolState),
    /// The connection's protocol version changes.
    ProtocolVersion(u32),
    /// Send this packet to the client.
    SendPacket(RawPacket),
}

/// What the handshake decides: the announced version and the next
/// state, or the error. The transfer intent is refused; the packet id
/// is not consulted: in the handshake state every packet is read as an
/// intention.
pub open spec fn spec_handshake(data: Seq<u8>) -> Result<(u32, ProtocolState), Error> {
    match spec_read_intention(data, 0) {
        Ok((pv, _addr, _port, intent, _end)) => match intent {
            Intent::Status => Ok((i32_bits(pv) as u32, ProtocolState::Status)),
            Intent::Login => Ok((i32_bits(pv) as u32, ProtocolState::Login)),
            Intent::Transfer => Err(Error::UnsupportedIntent),
        },
        Err(e) => Err(e),
    }
}

/// What a successful handshake dispatch emitted: the announced version
/// and the next state, in that order.
pub open spec fn handshake_dispatch_ok(packet: RawPacket, actions: Seq<Action>) -> bool {
    &&& spec_handshake(packet.data@) matches Ok(v) && actions.len() == 2 && actions[0]
        == Action::ProtocolVersion(v.0) && actions[1] == Action::ProtocolState(v.1)
}

/// On which packets a handshake dispatch fails, and with what.
pub open spec fn handshake_dispatch_err(packet: RawPacket, e: Error) -> bool {
    spec_handshake(packet.data@) == Err::<(u32, ProtocolState), Error>(e)
}

/// The dispatcher for the handshake state.
#[derive(Debug)]
pub struct HandshakeDispatcher;

impl HandshakeDispatcher {
    /// Decodes the intention and emits the version and the next state,
    /// in that order.
    pub fn dispatch(&mut self, raw_packet: &RawPacket) -> (r: Result<Vec<Action>, Error>)
        ensures
            match r {
                Ok(actions) => handshake_dispatch_ok(*raw_packet, actions@),
                Err(e) => handshake_dispatch_err(*raw_packet, e),
            },
    {
        let (intention, _) = match crate::packets::server::Intention::deserialize(
            raw_packet.data.as_slice(),
            0,
        ) {
            Ok(p) => p,
            Err(e) => {
                return Err(e);
            },
        };
        let version = i32_to_u32(intention.protocol_version);
        let next = match intention.intent {
            Intent::Status => ProtocolState::Status,
            Intent::Login => ProtocolState::Login,
            Intent::Transfer => {
                return Err(Error::UnsupportedIntent);
            },
        };
        let mut actions: Vec<Action> = Vec::new();
        actions.push(Action::ProtocolVersion(version));
        actions.push(Action::ProtocolState(next));
        Ok(actions)
    }
}

/// The status JSON the gateway answers with: a fixed version block and
/// the configured description text, inserted verbatim.
pub open spec fn status_json(desc: Seq<char>) -> Seq<char> {
    "{ \"version\": { \"name\": \"Maintenance\", \"protocol\": 0 }, \"description\": { \"text\": \""@
        + desc
        + "\" }, \"enforcesSecureChat\": false }"@
}

/// The dispatcher for the status state: answers status requests with
/// the status JSON and pings with matching pongs.
#[derive(Debug)]
pub struct StatusDispatcher {
    pub description: String,
}

/// What a successful status dispatch emitted, per packet id: the JSON
/// answer on a request, the echoing pong on a ping, nothing otherwise.
pub open spec fn status_dispatch_ok(pre: StatusDispatcher, packet: RawPacket, actions: Seq<Action>) -> bool {
    &&& packet.id.0 == 0 ==> actions.len() == 1 && (actions[0] matches Action::SendPacket(p)
        && p.id.0 == 0 && p.data@ == string_bytes(status_json(pre.description@)))
    &&& packet.id.0 == 1 ==> packet.data@.len() >= 8 && actions.len() == 1 && (actions[0]
        matches Action::SendPacket(p) && p.id.0 == 1 && p.data@ == i64_bytes(
        crate::varint::i64_of_bits(crate::wire::be_val(packet.data@.subrange(0, 8))),
    ))
    &&& packet.id.0 != 0 && packet.id.0 != 1 ==> actions.len() == 0
}

/// A status dispatch fails only on a ping too short for its timestamp.
pub open spec fn status_dispatch_err(packet: RawPacket, e: Error) -> bool {
    packet.id.0 == 1 && packet.data@.len() < 8 && e == Error::UnexpectedEof
}

impl StatusDispatcher {
    /// The description fits the status response's length prefix.
    pub open spec fn wf(&self) -> bool {
        encode_utf8(status_json(self.description@)).len() <= 0x7fff_ffff
    }

    /// On a status request, one status response; on a ping, one pong
    /// with the same timestamp; anything else is ignored without
    /// actions.
    pub fn dispatch(&mut self, raw_packet: &RawPacket) -> (r: Result<Vec<Action>, Error>)
        requires
            old(self).wf(),
        ensures
            *final(self) == *old(self),
            match r {
                Ok(actions) => status_dispatch_ok(*old(self), *raw_packet, actions@),
                Err(e) => status_dispatch_err(*raw_packet, e),
            },
    {
        let mut actions: Vec<Action> = Vec::new();
        if raw_packet.id.value() == 0 {
            let json = build_status_json(self.description.as_str());
            let mut data: Vec<u8> = Vec::new();
            crate::wire::write_string(&mut data, json.as_str());
            actions.push(Action::SendPacket(RawPacket::new(0, data)));
        } else if raw_packet.id.value() == 1 {
            let (ts, _) = match read_i64(raw_packet.data.as_slice(), 0) {
                Ok(p) => p,
                Err(e) => {
                    return Err(e);
                },
            };
            let mut data: Vec<u8> = Vec::new();
            crate::wire::write_i64(&mut data, ts);
            actions.push(Action::SendPacket(RawPacket::new(1, data)));
        }
        Ok(actions)
    }
}

/// Builds the status JSON around the configured description.
fn build_status_json(desc: &str) -> (r: String)
    ensures
        r@ == status_json(desc@),
{
    let mut s = String::from_str(
        "{ \"version\": { \"name\": \"Maintenance\", \"protocol\": 0 }, \"description\": { \"text\": \"",
    );
    s.append(desc);
    s.append("\" }, \"enforcesSecureChat\": false }");
    s
}

/// The result of RSA PKCS#1 v1.5 decryption of `ciphertext` under the
/// PKCS#8 DER private key `key_der`: a function of the two byte
/// sequences alone, named here and computed by the `rsa` crate.
pub uninterp spec fn rsa_decrypt_of(key_der: Seq<u8>, ciphertext: Seq<u8>) -> Option<Seq<u8>>;

/// Relies on `rsa::RsaPrivateKey::decrypt` with `Pkcs1v15Encrypt`, the
/// key decoded by `pkcs8::DecodePrivateKey::from_pkcs8_der`: both are
/// deterministic in their byte inputs.
#[verifier::external_body]
fn rsa_decrypt(key_der: &[u8], ciphertext: &[u8]) -> (r: Result<Vec<u8>, Error>)
    ensures
        match r {
            Ok(v) => rsa_decrypt_of(key_der@, ciphertext@) == Some(v@),
            Err(e) => rsa_decrypt_of(key_der@, ciphertext@) is None && e == Error::Rsa,
        },
{
    let key = match rsa::RsaPrivateKey::from_pkcs8_der(key_der) {
        Ok(k) => k,
        Err(_) => return Err(Error::Rsa),
    };
    match key.decrypt(rsa::Pkcs1v15Encrypt, ciphertext) {
        Ok(v) => Ok(v),
        Err(_) => Err(Error::Rsa),
    }
}

/// Relies on `rand::thread_rng` and `rand::Rng::fill`: 32 bytes drawn
/// fresh; nothing is promised of their values.
#[verifier::external_body]
fn random_verify_token() -> (r: Vec<u8>)
    ensures
        r@.len() == 32,
{
    let mut token = [0u8; 32];
    rand::thread_rng().fill(&mut token[..]);
    token.to_vec()
}

/// Relies on `rsa::RsaPrivateKey::new` at 1024 bits,
/// `pkcs8::EncodePrivateKey::to_pkcs8_der` and
/// `pkcs8::EncodePublicKey::to_public_key_der`: a fresh key pair in DER
/// form; nothing is promised of its bytes.
#[verifier::external_body]
fn rsa_generate_keys() -> (r: Result<(Vec<u8>, Vec<u8>), Error>)
    ensures
        r matches Err(e) ==> e == Error::Rsa,
{
    let mut rng = rand::thread_rng();
    let private_key = match rsa::RsaPrivateKey::new(&mut rng, 1024) {
        Ok(k) => k,
        Err(_) => return Err(Error::Rsa),
    };
    let private_der = match private_key.to_pkcs8_der() {
        Ok(d) => d.as_bytes().to_vec(),
        Err(_) => return Err(Error::Rsa),
    };
    let public_der = match rsa::RsaPublicKey::from(&private_key).to_public_key_der() {
        Ok(d) => d.to_vec(),
        Err(_) => return Err(Error::Rsa),
    };
    Ok((private_der, public_der))
}

/// The dispatcher for the login state: drives the RSA encryption
/// handshake and the compression negotiation.
#[derive(Debug)]
pub struct LoginDispatcher {
    pub verification_token: Vec<u8>,
    pub private_key: Vec<u8>,
    pub public_key: Vec<u8>,
    pub username: Option<String>,
    pub uuid: Option<Uuid>,
}

/// What a successful login dispatch emitted and stored, per packet id.
/// `Hello` stores the player and answers with the key offer; `Key`
/// checks the decrypted secrets (through `rsa_decrypt_of`) and emits,
/// in this exact order, encryption on, the compression announcement,
/// compression on, and the login finish, preceded by a disconnect
/// notice when the verify token came back wrong; `LoginAcknowledged`
/// moves to configuration; other ids emit nothing.
pub open spec fn login_dispatch_ok(
    pre: LoginDispatcher,
    post: LoginDispatcher,
    packet: RawPacket,
    actions: Seq<Action>,
) -> bool {
    &&& post.verification_token == pre.verification_token
    &&& post.private_key == pre.private_key
    &&& post.public_key == pre.public_key
    &&& packet.id.0 != 0 ==> post.username == pre.username && post.uuid == pre.uuid
    &&& packet.id.0 == 0 ==> {
        &&& spec_read_hello(packet.data@, 0) matches Ok(v) && (post.username matches Some(u)
            && u@ == v.0) && post.uuid == Some(v.1)
        &&& actions.len() == 1
        &&& (actions[0] matches Action::SendPacket(p) && p.id.0 == 1 && p.data@ == string_bytes(
            Seq::<char>::empty(),
        ) + byte_vec_bytes(pre.public_key@) + pre.verification_token@ + bool_bytes(true))
    }
    &&& packet.id.0 == 1 ==> {
        &&& spec_read_key(packet.data@, 0) matches Ok(k)
        &&& spec_read_key(packet.data@, 0) matches Ok(k) ==> {
            let td = rsa_decrypt_of(pre.private_key@, k.1);
            let sd = rsa_decrypt_of(pre.private_key@, k.0);
            &&& td matches Some(t)
            &&& sd matches Some(s2)
            &&& pre.username is Some
            &&& pre.uuid is Some
            &&& (td matches Some(t) && sd matches Some(s2)) ==> {
                let mismatch: int = if t != pre.verification_token@ {
                    1int
                } else {
                    0int
                };
                &&& s2.len() == 16
                &&& actions.len() == 4 + mismatch
                &&& mismatch == 1 ==> (actions[0] matches Action::SendPacket(p) && p.id.0 == 0
                    && p.data@ == string_bytes(disconnect_text()))
                &&& (actions[mismatch] matches Action::EnableEncryption(sec) && sec@ == s2)
                &&& (actions[mismatch + 1] matches Action::SendPacket(p) && p.id.0 == 3
                    && p.data@ == varint_bytes(256))
                &&& actions[mismatch + 2] == Action::EnableCompression(256)
                &&& (actions[mismatch + 3] matches Action::SendPacket(p) && p.id.0 == 2
                    && p.data@ == uuid_bytes(pre.uuid->Some_0) + string_bytes(
                    pre.username->Some_0@,
                ) + varint_bytes(0))
            }
        }
    }
    &&& packet.id.0 == 3 ==> actions.len() == 1 && actions[0] == Action::ProtocolState(
        ProtocolState::Configuration,
    )
    &&& packet.id.0 != 0 && packet.id.0 != 1 && packet.id.0 != 3 ==> actions.len() == 0
}

/// On which packets a login dispatch fails, and with what: a malformed
/// body, a failed RSA decryption, a short shared secret, or a `Key`
/// before any `Hello`. Acknowledgement and unknown ids never fail.
pub open spec fn login_dispatch_err(pre: LoginDispatcher, packet: RawPacket, e: Error) -> bool {
    &&& packet.id.0 == 0 ==> (spec_read_hello(packet.data@, 0) matches Err(e2) && e == e2)
    &&& packet.id.0 == 1 ==> match spec_read_key(packet.data@, 0) {
        Ok(k) => {
            let td = rsa_decrypt_of(pre.private_key@, k.1);
            let sd = rsa_decrypt_of(pre.private_key@, k.0);
            if td is None {
                e == Error::Rsa
            } else if sd is None {
                e == Error::Rsa
            } else if sd->Some_0.len() != 16 {
                e == Error::BadSharedSecret
            } else {
                (pre.username is None || pre.uuid is None) && e == Error::OutOfOrder
            }
        },
        Err(e2) => e == e2,
    }
    &&& packet.id.0 != 0 && packet.id.0 != 1 ==> false
}

impl LoginDispatcher {
    /// The token is 32 bytes, the public key fits its length prefix,
    /// and any stored username fits one too.
    pub open spec fn wf(&self) -> bool {
        &&& self.verification_token@.len() == 32
        &&& self.public_key@.len() <= 0x7fff_ffff
        &&& match self.username {
            Some(u) => encode_utf8(u@).len() <= 0x7fff_ffff,
            None => true,
        }
    }

    /// A fresh login dispatcher: a random 32-byte verify token and a
    /// fresh 1024-bit RSA key pair, with nobody logged in yet.
    pub fn new() -> (r: Result<LoginDispatcher, Error>)
        ensures
            r matches Ok(d) ==> d.wf() && d.username is None && d.uuid is None,
            r matches Err(e) ==> e == Error::Rsa,
    {
        let verification_token = random_verify_token();
        let (private_key, pk) = match rsa_generate_keys() {
            Ok(p) => p,
            Err(e) => {
                return Err(e);
            },
        };
        // a DER document longer than the length prefix admits could
        // never be sent; no real 1024-bit key comes close
        let public_key = if pk.len() <= 0x7fff_ffff {
            pk
        } else {
            Vec::new()
        };
        Ok(
            LoginDispatcher {
                verification_token,
                private_key,
                public_key,
                username: None,
                uuid: None,
            },
        )
    }

    /// The login steps, in wire order. `Hello` stores the player and
    /// answers with the key offer. `Key` decrypts the returned secrets
    /// with the stored private key, objects to a wrong verify token,
    /// and on a 16-byte shared secret emits, in this exact order:
    /// encryption on, the compression announcement, compression on,
    /// and the login finish. `LoginAcknowledged` moves the connection
    /// to configuration. Other ids are ignored without actions.
    pub fn dispatch(&mut self, raw_packet: &RawPacket) -> (r: Result<Vec<Action>, Error>)
        requires
            old(self).wf(),
        ensures
            final(self).wf(),
            match r {
                Ok(actions) => login_dispatch_ok(*old(self), *final(self), *raw_packet, actions@),
                Err(e) => login_dispatch_err(*old(self), *raw_packet, e) && *final(self) == *old(self),
            },
    {
        let mut actions: Vec<Action> = Vec::new();
        let id = raw_packet.id.value();
        if id == 0 {
            let (hello, _) = match Hello::deserialize(raw_packet.data.as_slice(), 0) {
                Ok(p) => p,
                Err(e) => {
                    return Err(e);
                },
            };
            proof {
                // the name's UTF-8 form is its wire bytes, which fit the
                // 31-bit prefix they arrived behind
                let d = raw_packet.data@;
                assert(d.skip(0) =~= d);
                crate::varint::lemma_scan_props(d.skip(0));
                match crate::varint::varint_dec32(d.skip(0)) {
                    Ok(p) => {
                        let len = p.0;
                        let used = p.1;
                        if len <= 0 {
                            assert(hello.name@ =~= Seq::<char>::empty());
                            assert(encode_utf8(hello.name@) =~= Seq::<u8>::empty());
                        } else {
                            let bytes = d.subrange(0 + used, 0 + used + len);
                            assert(0 + used + len <= d.len());
                            assert(vstd::utf8::valid_utf8(bytes));
                            assert(hello.name@ == vstd::utf8::decode_utf8(bytes));
                            vstd::utf8::decode_utf8_encode_utf8(bytes);
                            assert(encode_utf8(hello.name@) == bytes);
                        }
                    },
                    Err(_) => {
                        assert(false);
                    },
                }
                assert(encode_utf8(hello.name@).len() <= 0x7fff_ffff);
            }
            self.username = Some(hello.name);
            self.uuid = Some(hello.player_uuid);
            let offer = client::Hello {
                server_id: String::new(),
                public_key: clone_bytes(&self.public_key),
                verify_token: clone_bytes(&self.verification_token),
                should_authenticate: true,
            };
            let mut data: Vec<u8> = Vec::new();
            offer.serialize(&mut data);
            actions.push(Action::SendPacket(RawPacket::new(1, data)));
            Ok(actions)
        } else if id == 1 {
            let (key, _) = match Key::deserialize(raw_packet.data.as_slice(), 0) {
                Ok(p) => p,
                Err(e) => {
                    return Err(e);
                },
            };
            let token = match rsa_decrypt(
                self.private_key.as_slice(),
                key.verify_token.as_slice(),
            ) {
                Ok(t) => t,
                Err(e) => {
                    return Err(e);
                },
            };
            let secret = match rsa_decrypt(
                self.private_key.as_slice(),
                key.shared_secret.as_slice(),
            ) {
                Ok(s) => s,
                Err(e) => {
                    return Err(e);
                },
            };
            if secret.len() != 16 {
                return Err(Error::BadSharedSecret);
            }
            let (username, uuid) = match (&self.username, &self.uuid) {
                (Some(u), Some(q)) => (u, *q),
                _ => {
                    return Err(Error::OutOfOrder);
                },
            };
            if !bytes_equal(token.as_slice(), self.verification_token.as_slice()) {
                let mut data: Vec<u8> = Vec::new();
                let reason = crate::datatype::TextComponent(
                    String::from_str("{\"type\":\"text\",\"text\":\"Unsecure connection.\"}"),
                );
                proof {
                    lemma_disconnect_text_len();
                }
                reason.serialize(&mut data);
                actions.push(Action::SendPacket(RawPacket::new(0, data)));
            }
            actions.push(Action::EnableEncryption(secret));
            let mut comp: Vec<u8> = Vec::new();
            crate::varint::VarInt(256).serialize(&mut comp);
            actions.push(Action::SendPacket(RawPacket::new(3, comp)));
            actions.push(Action::EnableCompression(256));
            let profile = GameProfile {
                uuid,
                username: username.clone(),
                properties: Vec::new(),
            };
            let mut fin: Vec<u8> = Vec::new();
            proof {
                assert(crate::datatype::props_bytes(profile.properties@) == Seq::<u8>::empty());
            }
            profile.serialize(&mut fin);
            actions.push(Action::SendPacket(RawPacket::new(2, fin)));
            proof {
                assert(crate::datatype::profile_bytes(&profile) =~= uuid_bytes(uuid)
                    + string_bytes(profile.username@) + varint_bytes(0));
            }
            Ok(actions)
        } else if id == 3 {
            actions.push(Action::ProtocolState(ProtocolState::Configuration));
            Ok(actions)
        } else {
            Ok(actions)
        }
    }
}

/// The disconnect reason sent on a verify-token mismatch.
pub open spec fn disconnect_text() -> Seq<char> {
    "{\"type\":\"text\",\"text\":\"Unsecure connection.\"}"@
}

/// The disconnect reason is short ASCII and fits its length prefix.
proof fn lemma_disconnect_text_len()
    ensures
        encode_utf8(disconnect_text()).len() <= 0x7fff_ffff,
{
    reveal_strlit("{\"type\":\"text\",\"text\":\"Unsecure connection.\"}");
    vstd::utf8::is_ascii_chars_encode_utf8(disconnect_text());
    assert(vstd::utf8::is_ascii_chars(disconnect_text()));
}

/// The closed set of dispatchers, selected by protocol state and
/// version.
#[derive(Debug)]
pub enum Dispatcher {
    Handshake(HandshakeDispatcher),
    Status(StatusDispatcher),
    Login(LoginDispatcher),
}

/// What a successful dispatch under whichever dispatcher is active
/// emitted and stored: the matching per-dispatcher contract, with the
/// dispatcher kind kept and only a login dispatch mutating its state.
pub open spec fn dispatcher_dispatch_ok(
    pre: Dispatcher,
    post: Dispatcher,
    packet: RawPacket,
    actions: Seq<Action>,
) -> bool {
    match pre {
        Dispatcher::Handshake(_) => post == pre && handshake_dispatch_ok(packet, actions),
        Dispatcher::Status(d) => post == pre && status_dispatch_ok(d, packet, actions),
        Dispatcher::Login(d) => (post matches Dispatcher::Login(d2) && login_dispatch_ok(
            d,
            d2,
            packet,
            actions,
        )),
    }
}

/// On which packets a dispatch under whichever dispatcher is active
/// fails, and with what.
pub open spec fn dispatcher_dispatch_err(pre: Dispatcher, packet: RawPacket, e: Error) -> bool {
    match pre {
        Dispatcher::Handshake(_) => handshake_dispatch_err(packet, e),
        Dispatcher::Status(_) => status_dispatch_err(packet, e),
        Dispatcher::Login(d) => login_dispatch_err(d, packet, e),
    }
}

impl Dispatcher {
    /// Every dispatcher's own invariant.
    pub open spec fn wf(&self) -> bool {
        match self {
            Dispatcher::Handshake(_) => true,
            Dispatcher::Status(d) => d.wf(),
            Dispatcher::Login(d) => d.wf(),
        }
    }

    /// Consumes one raw packet under whichever dispatcher this is,
    /// carrying the matching per-dispatcher contract to the caller.
    pub fn dispatch(&mut self, raw_packet: &RawPacket) -> (r: Result<Vec<Action>, Error>)
        requires
            old(self).wf(),
        ensures
            final(self).wf(),
            match r {
                Ok(actions) => dispatcher_dispatch_ok(
                    *old(self),
                    *final(self),
                    *raw_packet,
                    actions@,
                ),
                Err(e) => dispatcher_dispatch_err(*old(self), *raw_packet, e) && *final(self)
                    == *old(self),
            },
    {
        match self {
            Dispatcher::Handshake(d) => d.dispatch(raw_packet),
            Dispatcher::Status(d) => d.dispatch(raw_packet),
            Dispatcher::Login(d) => d.dispatch(raw_packet),
        }
    }
}

/// What a successful dispatcher lookup yielded for a state, version
/// and description: the status dispatcher around that description, or
/// a fresh login dispatcher; no other pair is served.
pub open spec fn get_dispatcher_ok(
    state: ProtocolState,
    version: u32,
    desc: Seq<char>,
    d: Dispatcher,
) -> bool {
    &&& d.wf()
    &&& state == ProtocolState::Status && version >= 773 ==> (d matches Dispatcher::Status(sd)
        && sd.description@ == desc)
    &&& state == ProtocolState::Login && version >= 773 ==> (d matches Dispatcher::Login(ld)
        && ld.username is None && ld.uuid is None)
    &&& !(state == ProtocolState::Status && version >= 773) && !(state == ProtocolState::Login
        && version >= 773) ==> false
}

/// On which pairs a dispatcher lookup fails, and with what: no serving
/// dispatcher, or the login key generator failing.
pub open spec fn get_dispatcher_err(state: ProtocolState, version: u32, e: Error) -> bool {
    if state == ProtocolState::Status && version >= 773 {
        false
    } else if state == ProtocolState::Login && version >= 773 {
        e == Error::Rsa
    } else {
        e == Error::NoDispatcher
    }
}

/// Looks up the dispatcher serving a state and version: status and
/// login are served from protocol version 773 on; any other pair has
/// no dispatcher. Building a login dispatcher can fail only in the
/// key generator.
pub fn get_dispatcher(state: ProtocolState, version: u32, description: &str) -> (r: Result<
    Dispatcher,
    Error,
>)
    requires
        encode_utf8(status_json(description@)).len() <= 0x7fff_ffff,
    ensures
        match r {
            Ok(d) => get_dispatcher_ok(state, version, description@, d),
            Err(e) => get_dispatcher_err(state, version, e),
        },
    {
    match state {
        ProtocolState::Status => {
            if version >= 773 {
                Ok(Dispatcher::Status(StatusDispatcher { description: description.to_owned() }))
            } else {
                Err(Error::NoDispatcher)
            }
        },
        ProtocolState::Login => {
            if version >= 773 {
                match LoginDispatcher::new() {
                    Ok(d) => Ok(Dispatcher::Login(d)),
                    Err(e) => Err(e),
                }
            } else {
                Err(Error::NoDispatcher)
            }
        },
        _ => Err(Error::NoDispatcher),
    }
}

/// A copy of a byte vector.
fn clone_bytes(v: &Vec<u8>) -> (r: Vec<u8>)
    ensures
        r@ == v@,
{
    let mut out: Vec<u8> = Vec::new();
    out.extend_from_slice(v.as_slice());
    out
}

/// Whether two byte runs hold the same bytes.
fn bytes_equal(a: &[u8], b: &[u8]) -> (r: bool)
    ensures
        r == (a@ == b@),
{
    if a.len() != b.len() {
        proof {
            assert(a@.len() != b@.len());
        }
        return false;
    }
    let mut i: usize = 0;
    while i < a.len()
        invariant
            i <= a@.len(),
            a@.len() == b@.len(),
            forall|j: int| 0 <= j < i ==> a@[j] == b@[j],
        decreases a@.len() - i,
    {
        if a[i] != b[i] {
            return false;
        }
        i = i + 1;
    }
    proof {
        assert(a@ =~= b@);
    }
    true
}

} // verus!
