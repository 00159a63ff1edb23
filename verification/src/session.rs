//! The per-connection driver core: protocol state, version, dispatcher
//! and codec, driven one input chunk at a time. All I/O stays with the
//! caller: bytes come in, bytes to write come out.

use vstd::prelude::*;

use vstd::utf8::encode_utf8;

use crate::cfb8::{cfb8_encrypt, cfb8_sr_after, Cfb8Cipher};
use crate::codec::PacketCodec;
use crate::dispatch::{
    dispatcher_dispatch_err, dispatcher_dispatch_ok, get_dispatcher, get_dispatcher_err,
    get_dispatcher_ok, status_json, Action, Dispatcher, HandshakeDispatcher, ProtocolState,
};
use crate::encoder::{frame_payload, plain_frame};
use crate::error::Error;
use crate::frame::frame_len;
use crate::packet::RawPacket;
use crate::varint::varint_dec32;

verus! {

/// What the driver knows of a connection: its protocol state and the
/// client's announced protocol version.
#[derive(Debug, Clone, Copy, PartialEq, Eq, Structural)]
pub struct Context {
    pub protocol_state: ProtocolState,
    pub protocol_version: u32,
}

/// No frame is complete at the front of the stream `s`: its length
/// prefix is short, or its body has not fully arrived.
pub open spec fn no_complete_frame(s: Seq<u8>) -> bool {
    match varint_dec32(s) {
        Ok(p) => p.1 + frame_len(p.0) > s.len(),
        Err(e) => e == Error::UnexpectedEof,
    }
}

/// A codec direction's cipher, viewed as its key and shift register.
pub open spec fn cipher_view(c: Option<Cfb8Cipher>) -> Option<(Seq<u8>, Seq<u8>)> {
    match c {
        None => None,
        Some(ci) => Some((ci.key@, ci.sr@)),
    }
}

/// Everything of a session an action can touch, as one spec value: the
/// context, the two cipher views, and the two compression thresholds.
pub ghost struct DriverView {
    pub ctx: Context,
    pub enc_cipher: Option<(Seq<u8>, Seq<u8>)>,
    pub enc_threshold: Option<usize>,
    pub dec_cipher: Option<(Seq<u8>, Seq<u8>)>,
    pub dec_threshold: Option<usize>,
}

/// The driver view a session currently holds.
pub open spec fn session_view(s: Session) -> DriverView {
    DriverView {
        ctx: s.context,
        enc_cipher: cipher_view(s.codec.encoder.cipher),
        enc_threshold: s.codec.encoder.threshold,
        dec_cipher: cipher_view(s.codec.decoder.cipher),
        dec_threshold: s.codec.decoder.threshold,
    }
}

/// What realizing one action does: the driver view after it, the bytes
/// it appends to the outbound stream, and whether it changed the
/// context — or the error that refuses it. Encryption is one-shot per
/// direction; a sent packet is framed under the current threshold and
/// encrypted under the current outbound cipher, which its ciphertext
/// then advances.
pub open spec fn spec_apply_one(v: DriverView, a: Action) -> Result<
    (DriverView, Seq<u8>, bool),
    Error,
> {
    match a {
        Action::EnableEncryption(sec) => if sec@.len() == 16 {
            Ok(
                (
                    DriverView {
                        enc_cipher: if v.enc_cipher is None {
                            Some((sec@, sec@))
                        } else {
                            v.enc_cipher
                        },
                        dec_cipher: if v.dec_cipher is None {
                            Some((sec@, sec@))
                        } else {
                            v.dec_cipher
                        },
                        ..v
                    },
                    Seq::empty(),
                    false,
                ),
            )
        } else {
            Err(Error::BadSharedSecret)
        },
        Action::EnableCompression(t) => Ok(
            (
                DriverView { enc_threshold: Some(t), dec_threshold: Some(t), ..v },
                Seq::empty(),
                false,
            ),
        ),
        Action::ProtocolState(st) => Ok(
            (
                DriverView { ctx: Context { protocol_state: st, ..v.ctx }, ..v },
                Seq::empty(),
                true,
            ),
        ),
        Action::ProtocolVersion(ver) => Ok(
            (
                DriverView { ctx: Context { protocol_version: ver, ..v.ctx }, ..v },
                Seq::empty(),
                true,
            ),
        ),
        Action::SendPacket(p) => if p.data@.len() <= 0x7fff_fff0 && frame_payload(
            v.enc_threshold,
            &p,
        ).len() <= 0x7fff_ffff {
            let plain = plain_frame(v.enc_threshold, &p);
            let bytes = match v.enc_cipher {
                None => plain,
                Some((k, sr)) => cfb8_encrypt(k, sr, plain),
            };
            Ok(
                (
                    DriverView {
                        enc_cipher: match v.enc_cipher {
                            None => None,
                            Some((k, sr)) => Some((k, cfb8_sr_after(sr, bytes))),
                        },
                        ..v
                    },
                    bytes,
                    false,
                ),
            )
        } else {
            Err(Error::Overflow)
        },
    }
}

/// What realizing a whole action list does, in emission order: the
/// final view, the concatenation of all bytes sent, and whether any
/// action changed the context — stopping at the first refusal.
pub open spec fn spec_apply_actions(v: DriverView, actions: Seq<Action>) -> Result<
    (DriverView, Seq<u8>, bool),
    Error,
>
    decreases actions.len(),
{
    if actions.len() == 0 {
        Ok((v, Seq::empty(), false))
    } else {
        match spec_apply_one(v, actions[0]) {
            Ok((v1, b1, c1)) => match spec_apply_actions(v1, actions.drop_first()) {
                Ok((v2, b2, c2)) => Ok((v2, b1 + b2, c1 || c2)),
                Err(e) => Err(e),
            },
            Err(e) => Err(e),
        }
    }
}

/// Applying one more action is applying the list, then that action.
pub proof fn lemma_apply_actions_snoc(v: DriverView, actions: Seq<Action>, a: Action)
    ensures
        spec_apply_actions(v, actions.push(a)) == (match spec_apply_actions(v, actions) {
            Ok((v1, b1, c1)) => match spec_apply_one(v1, a) {
                Ok((v2, b2, c2)) => Ok::<(DriverView, Seq<u8>, bool), Error>(
                    (v2, b1 + b2, c1 || c2),
                ),
                Err(e) => Err(e),
            },
            Err(e) => Err(e),
        }),
    decreases actions.len(),
{
    if actions.len() == 0 {
        reveal_with_fuel(spec_apply_actions, 3);
        assert(actions.push(a) =~= seq![a]);
        assert(seq![a].drop_first() =~= Seq::<Action>::empty());
        match spec_apply_one(v, a) {
            Ok((v1, b1, c1)) => {
                assert(Seq::<u8>::empty() + b1 =~= b1);
                assert(b1 + Seq::<u8>::empty() =~= b1);
            },
            Err(_) => {},
        }
    } else {
        assert(actions.push(a)[0] == actions[0]);
        assert(actions.push(a).drop_first() =~= actions.drop_first().push(a));
        match spec_apply_one(v, actions[0]) {
            Ok((v1, b1, c1)) => {
                lemma_apply_actions_snoc(v1, actions.drop_first(), a);
                match spec_apply_actions(v1, actions.drop_first()) {
                    Ok((v2, b2, c2)) => {
                        match spec_apply_one(v2, a) {
                            Ok((v3, b3, c3)) => {
                                assert(b1 + (b2 + b3) =~= (b1 + b2) + b3);
                            },
                            Err(_) => {},
                        }
                    },
                    Err(_) => {},
                }
            },
            Err(_) => {},
        }
    }
}

/// An action list that fails keeps failing the same way under any
/// further actions.
pub proof fn lemma_apply_actions_err_prefix(v: DriverView, xs: Seq<Action>, ys: Seq<Action>)
    requires
        spec_apply_actions(v, xs) is Err,
    ensures
        spec_apply_actions(v, xs + ys) == spec_apply_actions(v, xs),
    decreases xs.len(),
{
    if xs.len() == 0 {
    } else {
        assert((xs + ys)[0] == xs[0]);
        assert((xs + ys).drop_first() =~= xs.drop_first() + ys);
        match spec_apply_one(v, xs[0]) {
            Ok((v1, b1, c1)) => {
                lemma_apply_actions_err_prefix(v1, xs.drop_first(), ys);
            },
            Err(_) => {},
        }
    }
}

/// What a successful `handle_packet` did: the active dispatcher
/// consumed the packet under its own contract, every emitted action
/// was realized in emission order (`spec_apply_actions`), exactly
/// those bytes were appended for the client, and the dispatcher was
/// looked up anew by state and version exactly when some action
/// changed the context.
pub open spec fn handle_packet_ok(
    pre: Session,
    post: Session,
    packet: RawPacket,
    out_ext: Seq<u8>,
) -> bool {
    exists|actions: Seq<Action>, mid: Dispatcher|
        {
            &&& #[trigger] dispatcher_dispatch_ok(pre.dispatcher, mid, packet, actions)
            &&& (spec_apply_actions(session_view(pre), actions) matches Ok(t) && session_view(
                post,
            ) == t.0 && out_ext == t.1 && (!t.2 ==> post.dispatcher == mid) && (t.2
                ==> get_dispatcher_ok(
                t.0.ctx.protocol_state,
                t.0.ctx.protocol_version,
                pre.description@,
                post.dispatcher,
            )))
        }
}

/// Why `handle_packet` failed: the dispatch itself, one of its actions
/// (first refusal wins), or the dispatcher lookup after a context
/// change.
pub open spec fn handle_packet_err(pre: Session, packet: RawPacket, e: Error) -> bool {
    ||| dispatcher_dispatch_err(pre.dispatcher, packet, e)
    ||| exists|actions: Seq<Action>, mid: Dispatcher|
        #[trigger] dispatcher_dispatch_ok(pre.dispatcher, mid, packet, actions) && (
        spec_apply_actions(session_view(pre), actions) == Err::<
            (DriverView, Seq<u8>, bool),
            Error,
        >(e) || (spec_apply_actions(session_view(pre), actions) matches Ok(t) && t.2
            && get_dispatcher_err(t.0.ctx.protocol_state, t.0.ctx.protocol_version, e)))
}

/// One decode step that completed a frame and produced a packet: only
/// the decoder and the buffer move; the packet and the retained bytes
/// are exactly what the plaintext stream prescribes.
pub open spec fn decode_step(pre: Session, post: Session, packet: RawPacket) -> bool {
    &&& post.dispatcher == pre.dispatcher
    &&& post.context == pre.context
    &&& post.description == pre.description
    &&& post.codec.encoder == pre.codec.encoder
    &&& post.codec.decoder.threshold == pre.codec.decoder.threshold
    &&& (pre.codec.decoder.cipher is None ==> post.codec.decoder.cipher is None)
    &&& (pre.codec.decoder.cipher matches Some(c) ==> (post.codec.decoder.cipher matches Some(c2)
        && c2.key@ == c.key@ && c2.wf() && c2.sr@ == cfb8_sr_after(
        c.sr@,
        pre.inbuf@.skip(pre.codec.decoder.cipher_cursor as int),
    )))
    &&& post.codec.decoder.inv(post.inbuf@)
    &&& post.codec.decoder.cipher_cursor == post.inbuf@.len()
    &&& post.codec.decoder.pending_frame_length is None
    &&& ({
        let s = pre.codec.decoder.stream(pre.inbuf@);
        varint_dec32(s) matches Ok(p) && 1 <= p.1 && p.1 + frame_len(p.0) <= s.len()
            && crate::decoder::spec_parse_frame(
            pre.codec.decoder.threshold is Some,
            s.subrange(p.1, p.1 + frame_len(p.0) as int),
        ) == Ok::<(i32, Seq<u8>), Error>((packet.id.0, packet.data@)) && post.inbuf@ == s.skip(
            p.1 + frame_len(p.0) as int,
        )
    })
}

/// The decode step that found no complete frame: the decoder records
/// exactly where it stopped and waits for more bytes.
pub open spec fn decode_done(pre: Session, post: Session) -> bool {
    &&& post.dispatcher == pre.dispatcher
    &&& post.context == pre.context
    &&& post.description == pre.description
    &&& post.codec.encoder == pre.codec.encoder
    &&& post.codec.decoder.threshold == pre.codec.decoder.threshold
    &&& (pre.codec.decoder.cipher is None ==> post.codec.decoder.cipher is None)
    &&& (pre.codec.decoder.cipher matches Some(c) ==> (post.codec.decoder.cipher matches Some(c2)
        && c2.key@ == c.key@ && c2.wf() && c2.sr@ == cfb8_sr_after(
        c.sr@,
        pre.inbuf@.skip(pre.codec.decoder.cipher_cursor as int),
    )))
    &&& post.codec.decoder.inv(post.inbuf@)
    &&& post.codec.decoder.cipher_cursor == post.inbuf@.len()
    &&& ({
        let s = pre.codec.decoder.stream(pre.inbuf@);
        &&& (varint_dec32(s) matches Ok(p) ==> p.1 + frame_len(p.0) > s.len()
            && post.codec.decoder.pending_frame_length == Some(p.0) && post.inbuf@ == s.skip(p.1))
        &&& (varint_dec32(s) matches Err(e) ==> e == Error::UnexpectedEof
            && post.codec.decoder.pending_frame_length is None && post.inbuf@
            == crate::decoder::plain_of(
            &pre.codec.decoder.cipher,
            pre.codec.decoder.cipher_cursor as int,
            pre.inbuf@,
        ))
    })
}

/// Why a decode step failed: a malformed length prefix, or a complete
/// frame whose decompression or packet-id split was refused.
pub open spec fn decode_err(pre: Session, e: Error) -> bool {
    let s = pre.codec.decoder.stream(pre.inbuf@);
    &&& (varint_dec32(s) matches Err(e2) ==> e == e2 && e2 != Error::UnexpectedEof)
    &&& (varint_dec32(s) matches Ok(p) ==> p.1 + frame_len(p.0) <= s.len()
        && crate::decoder::spec_parse_frame(
        pre.codec.decoder.threshold is Some,
        s.subrange(p.1, p.1 + frame_len(p.0) as int),
    ) == Err::<(i32, Seq<u8>), Error>(e))
}

/// One decoded-and-handled packet of a driver run: the state after the
/// decode, the packet, the state after its handling, and the bytes the
/// handling sent.
pub ghost struct DriverStep {
    pub mid: Session,
    pub post: Session,
    pub packet: RawPacket,
    pub bytes: Seq<u8>,
}

/// A run of driver steps from `pre`: each decodes one packet and
/// handles it successfully, each from the state the one before left.
pub open spec fn steps_ok(pre: Session, steps: Seq<DriverStep>) -> bool
    decreases steps.len(),
{
    if steps.len() == 0 {
        true
    } else {
        &&& decode_step(pre, steps[0].mid, steps[0].packet)
        &&& handle_packet_ok(steps[0].mid, steps[0].post, steps[0].packet, steps[0].bytes)
        &&& steps_ok(steps[0].post, steps.drop_first())
    }
}

/// The state a run of driver steps ends in.
pub open spec fn steps_end(pre: Session, steps: Seq<DriverStep>) -> Session
    decreases steps.len(),
{
    if steps.len() == 0 {
        pre
    } else {
        steps_end(steps[0].post, steps.drop_first())
    }
}

/// Everything a run of driver steps sent, in order.
pub open spec fn steps_bytes(steps: Seq<DriverStep>) -> Seq<u8>
    decreases steps.len(),
{
    if steps.len() == 0 {
        Seq::empty()
    } else {
        steps[0].bytes + steps_bytes(steps.drop_first())
    }
}

/// What the driver loop means, from a starting state to a final one:
/// some run of packets decoded and handled in wire order, then either
/// a final decode that found no complete frame — success, with exactly
/// the run's bytes sent — or the step that failed, which tears the
/// connection down with the final state and the bytes already sent
/// unconstrained.
pub open spec fn drained(pre: Session, post: Session, bytes: Seq<u8>, r: Result<(), Error>) -> bool {
    exists|steps: Seq<DriverStep>|
        #[trigger] steps_ok(pre, steps) && (match r {
            Ok(()) => decode_done(steps_end(pre, steps), post) && bytes == steps_bytes(steps),
            Err(e) => decode_err(steps_end(pre, steps), e) || (exists|
                mid: Session,
                packet: RawPacket,
            |
                #[trigger] decode_step(steps_end(pre, steps), mid, packet) && handle_packet_err(
                    mid,
                    packet,
                    e,
                )),
        })
}

/// Prepending one step keeps a run valid and concatenates its bytes.
proof fn lemma_steps_cons(pre: Session, st: DriverStep, steps: Seq<DriverStep>)
    requires
        decode_step(pre, st.mid, st.packet),
        handle_packet_ok(st.mid, st.post, st.packet, st.bytes),
        steps_ok(st.post, steps),
    ensures
        steps_ok(pre, seq![st] + steps),
        steps_end(pre, seq![st] + steps) == steps_end(st.post, steps),
        steps_bytes(seq![st] + steps) == st.bytes + steps_bytes(steps),
{
    let s2 = seq![st] + steps;
    assert(s2[0] == st);
    assert(s2.drop_first() =~= steps);
}

/// A run that found no complete frame is one `drained` run that sent
/// nothing and succeeded.
proof fn lemma_drained_done(pre: Session, post: Session)
    requires
        decode_done(pre, post),
    ensures
        drained(pre, post, Seq::<u8>::empty(), Ok::<(), Error>(())),
{
    let steps = Seq::<DriverStep>::empty();
    assert(steps_ok(pre, steps));
    assert(decode_done(steps_end(pre, steps), post));
    assert(steps_bytes(steps) =~= Seq::<u8>::empty());
}

/// A failing decode is a `drained` run that failed, whatever state and
/// bytes it left behind.
proof fn lemma_drained_decode_err(pre: Session, post: Session, bytes: Seq<u8>, e: Error)
    requires
        decode_err(pre, e),
    ensures
        drained(pre, post, bytes, Err::<(), Error>(e)),
{
    let steps = Seq::<DriverStep>::empty();
    assert(steps_ok(pre, steps));
    assert(decode_err(steps_end(pre, steps), e));
}

/// A packet whose handling failed is a `drained` run that failed,
/// whatever state and bytes it left behind.
proof fn lemma_drained_handle_err(
    pre: Session,
    mid: Session,
    packet: RawPacket,
    post: Session,
    bytes: Seq<u8>,
    e: Error,
)
    requires
        decode_step(pre, mid, packet),
        handle_packet_err(mid, packet, e),
    ensures
        drained(pre, post, bytes, Err::<(), Error>(e)),
{
    let steps = Seq::<DriverStep>::empty();
    assert(steps_ok(pre, steps));
    assert(decode_step(steps_end(pre, steps), mid, packet));
}

/// Prepending one handled packet to any `drained` run gives a `drained`
/// run from before it, with its bytes in front.
proof fn lemma_drained_prepend(
    pre: Session,
    mid: Session,
    packet: RawPacket,
    mid2: Session,
    b1: Seq<u8>,
)
    requires
        decode_step(pre, mid, packet),
        handle_packet_ok(mid, mid2, packet, b1),
    ensures
        forall|post: Session, b2: Seq<u8>, rr: Result<(), Error>|
            #[trigger] drained(mid2, post, b2, rr) ==> drained(pre, post, b1 + b2, rr),
{
    assert forall|post: Session, b2: Seq<u8>, rr: Result<(), Error>|
        #[trigger] drained(mid2, post, b2, rr) implies drained(pre, post, b1 + b2, rr) by {
        let steps = choose|steps: Seq<DriverStep>|
            #[trigger] steps_ok(mid2, steps) && (match rr {
                Ok(()) => decode_done(steps_end(mid2, steps), post) && b2 == steps_bytes(steps),
                Err(e) => decode_err(steps_end(mid2, steps), e) || (exists|
                    midx: Session,
                    pkx: RawPacket,
                |
                    #[trigger] decode_step(steps_end(mid2, steps), midx, pkx)
                        && handle_packet_err(midx, pkx, e)),
            });
        let st = DriverStep { mid, post: mid2, packet, bytes: b1 };
        let s2 = seq![st] + steps;
        lemma_steps_cons(pre, st, steps);
        assert(steps_end(pre, s2) == steps_end(mid2, steps));
        match rr {
            Ok(()) => {
                assert(decode_done(steps_end(pre, s2), post));
                assert(b1 + b2 == steps_bytes(s2));
            },
            Err(e) => {
                if decode_err(steps_end(mid2, steps), e) {
                    assert(decode_err(steps_end(pre, s2), e));
                } else {
                    let (midx, pkx) = choose|midx: Session, pkx: RawPacket|
                        #[trigger] decode_step(steps_end(mid2, steps), midx, pkx)
                            && handle_packet_err(midx, pkx, e);
                    assert(decode_step(steps_end(pre, s2), midx, pkx));
                }
            },
        }
        assert(steps_ok(pre, s2));
    }
}

/// The starting state of one `process` call: the same driver with the
/// input chunk appended to its inbound buffer.
pub open spec fn session_with_input(start: Session, pre: Session, input: Seq<u8>) -> bool {
    &&& start.inbuf@ == pre.inbuf@ + input
    &&& start.context == pre.context
    &&& start.dispatcher == pre.dispatcher
    &&& start.codec == pre.codec
    &&& start.description == pre.description
}

/// One connection's driver state: context, active dispatcher, codec,
/// and the buffer of raw inbound bytes not yet decoded.
pub struct Session {
    pub context: Context,
    pub dispatcher: Dispatcher,
    pub codec: PacketCodec,
    pub inbuf: Vec<u8>,
    pub description: String,
}

impl Session {
    /// Everything the driver owns is sound: the dispatcher's own
    /// invariant, both codec directions, and a description that fits
    /// the status response.
    pub open spec fn wf(&self) -> bool {
        &&& self.dispatcher.wf()
        &&& self.codec.encoder.wf()
        &&& self.codec.decoder.inv(self.inbuf@)
        &&& encode_utf8(status_json(self.description@)).len() <= 0x7fff_ffff
    }

    /// A fresh connection: handshake state, version 0, the handshake
    /// dispatcher, and a plain codec.
    pub fn new(description: String) -> (r: Session)
        requires
            encode_utf8(status_json(description@)).len() <= 0x7fff_ffff,
        ensures
            r.wf(),
            r.context.protocol_state == ProtocolState::Handshake,
            r.context.protocol_version == 0,
            r.dispatcher is Handshake,
            r.description@ == description@,
            r.inbuf@ == Seq::<u8>::empty(),
    {
        Session {
            context: Context { protocol_state: ProtocolState::Handshake, protocol_version: 0 },
            dispatcher: Dispatcher::Handshake(HandshakeDispatcher),
            codec: PacketCodec::new(),
            inbuf: Vec::new(),
            description,
        }
    }

    /// Realizes one action against the codec, the context or the output
    /// bytes. Returns whether the context changed, which obliges the
    /// caller to look the dispatcher up anew.
    fn apply_action(&mut self, action: Action, out: &mut Vec<u8>) -> (r: Result<bool, Error>)
        requires
            old(self).wf(),
        ensures
            final(self).wf(),
            final(self).dispatcher == old(self).dispatcher,
            final(self).description == old(self).description,
            final(self).inbuf == old(self).inbuf,
            final(self).codec.decoder.pending_frame_length == old(
                self,
            ).codec.decoder.pending_frame_length,
            final(self).codec.decoder.cipher_cursor == old(self).codec.decoder.cipher_cursor,
            match r {
                Ok(changed) => (spec_apply_one(session_view(*old(self)), action) matches Ok(t)
                    && t.0 == session_view(*final(self)) && final(out)@ == old(out)@ + t.1 && t.2
                    == changed),
                Err(e) => spec_apply_one(session_view(*old(self)), action) == Err::<
                    (DriverView, Seq<u8>, bool),
                    Error,
                >(e) && final(out)@ == old(out)@ && session_view(*final(self)) == session_view(
                    *old(self),
                ),
            },
    {
        match action {
            Action::EnableEncryption(sec) => {
                if sec.len() != 16 {
                    return Err(Error::BadSharedSecret);
                }
                self.codec.enable_crypto(sec.as_slice());
                Ok(false)
            },
            Action::EnableCompression(t) => {
                self.codec.enable_compression(t);
                Ok(false)
            },
            Action::ProtocolState(st) => {
                self.context.protocol_state = st;
                Ok(true)
            },
            Action::ProtocolVersion(v) => {
                self.context.protocol_version = v;
                Ok(true)
            },
            Action::SendPacket(p) => {
                if p.data.len() > 0x7fff_fff0 {
                    return Err(Error::Overflow);
                }
                match self.codec.encode(&p, out) {
                    Ok(()) => Ok(false),
                    Err(e) => Err(e),
                }
            },
        }
    }

    /// Dispatches one decoded packet under the active dispatcher and
    /// realizes its actions in emission order; when they changed the
    /// context, looks the next dispatcher up by state and version. On
    /// success, `out` gains exactly the bytes the actions sent.
    pub fn handle_packet(&mut self, packet: &RawPacket, out: &mut Vec<u8>) -> (r: Result<(), Error>)
        requires
            old(self).wf(),
        ensures
            final(self).wf(),
            final(self).description == old(self).description,
            final(self).inbuf == old(self).inbuf,
            final(self).codec.decoder.pending_frame_length == old(
                self,
            ).codec.decoder.pending_frame_length,
            final(self).codec.decoder.cipher_cursor == old(self).codec.decoder.cipher_cursor,
            match r {
                Ok(()) => old(out)@.is_prefix_of(final(out)@) && handle_packet_ok(
                    *old(self),
                    *final(self),
                    *packet,
                    final(out)@.skip(old(out)@.len() as int),
                ),
                Err(e) => old(out)@.is_prefix_of(final(out)@) && handle_packet_err(
                    *old(self),
                    *packet,
                    e,
                ),
            },
    {
        let mut actions = match self.dispatcher.dispatch(packet) {
            Ok(a) => a,
            Err(e) => {
                return Err(e);
            },
        };
        let ghost all0 = actions@;
        let ghost mid_disp = self.dispatcher;
        let ghost v0 = session_view(*self);
        let ghost out0 = out@;
        proof {
            assert(dispatcher_dispatch_ok(old(self).dispatcher, mid_disp, *packet, all0));
            assert(v0 == session_view(*old(self)));
            assert(out@.skip(out0.len() as int) =~= Seq::<u8>::empty());
        }
        let mut context_changed = false;
        let ghost mut done: Seq<Action> = Seq::empty();
        proof {
            assert(all0 =~= done + actions@);
        }
        while actions.len() > 0
            invariant
                out0 == old(out)@,
                v0 == session_view(*old(self)),
                dispatcher_dispatch_ok(old(self).dispatcher, mid_disp, *packet, all0),
                all0 == done + actions@,
                self.wf(),
                self.dispatcher == mid_disp,
                self.description == old(self).description,
                self.inbuf == old(self).inbuf,
                self.codec.decoder.pending_frame_length == old(
                    self,
                ).codec.decoder.pending_frame_length,
                self.codec.decoder.cipher_cursor == old(self).codec.decoder.cipher_cursor,
                out0.is_prefix_of(out@),
                spec_apply_actions(v0, done) matches Ok(t) && t.0 == session_view(*self) && t.1
                    == out@.skip(out0.len() as int) && t.2 == context_changed,
            decreases actions@.len(),
        {
            let ghost done_pre = done;
            let ghost rest_pre = actions@;
            let ghost ext_pre = out@.skip(out0.len() as int);
            let action = actions.remove(0);
            proof {
                done = done.push(action);
                assert(rest_pre[0] == action);
                assert(all0 =~= done + actions@);
                lemma_apply_actions_snoc(v0, done_pre, action);
            }
            match self.apply_action(action, out) {
                Ok(changed) => {
                    if changed {
                        context_changed = true;
                    }
                    proof {
                        assert(out@.skip(out0.len() as int) =~= ext_pre + out@.skip(
                            (out0.len() + ext_pre.len()) as int,
                        ));
                    }
                },
                Err(e) => {
                    proof {
                        assert(spec_apply_actions(v0, done) == Err::<
                            (DriverView, Seq<u8>, bool),
                            Error,
                        >(e));
                        lemma_apply_actions_err_prefix(v0, done, actions@);
                        assert(done + actions@ =~= all0);
                        assert(spec_apply_actions(v0, all0) == Err::<
                            (DriverView, Seq<u8>, bool),
                            Error,
                        >(e));
                    }
                    return Err(e);
                },
            }
        }
        proof {
            assert(all0 =~= done);
        }
        if context_changed {
            let next = match get_dispatcher(
                self.context.protocol_state,
                self.context.protocol_version,
                self.description.as_str(),
            ) {
                Ok(d) => d,
                Err(e) => {
                    proof {
                        assert(session_view(*self).ctx == self.context);
                    }
                    return Err(e);
                },
            };
            self.dispatcher = next;
        }
        proof {
            assert(handle_packet_ok(
                *old(self),
                *self,
                *packet,
                out@.skip(out0.len() as int),
            ));
        }
        Ok(())
    }

    /// Feeds one chunk of raw socket bytes in, decodes every packet
    /// that completes, dispatches each in order, and collects every
    /// byte to write back in `out`: the driver loop, one chunk at a
    /// time. On success every complete frame has been drained, and the
    /// whole call is one `drained` run from the buffer-extended start.
    pub fn process(&mut self, input: &[u8], out: &mut Vec<u8>) -> (r: Result<(), Error>)
        requires
            old(self).wf(),
        ensures
            final(self).description == old(self).description,
            old(out)@.is_prefix_of(final(out)@),
            r is Ok ==> final(self).wf() && no_complete_frame(
                final(self).codec.decoder.stream(final(self).inbuf@),
            ),
            exists|start: Session|
                #[trigger] session_with_input(start, *old(self), input@) && drained(
                    start,
                    *final(self),
                    final(out)@.skip(old(out)@.len() as int),
                    r,
                ),
    {
        self.inbuf.extend_from_slice(input);
        let ghost start = *self;
        let ghost out0 = out@;
        proof {
            assert(start.inbuf@ == old(self).inbuf@ + input@);
            assert(start.context == old(self).context);
            assert(start.dispatcher == old(self).dispatcher);
            assert(start.codec == old(self).codec);
            assert(start.description == old(self).description);
            assert(session_with_input(start, *old(self), input@));
            assert(out@.skip(out0.len() as int) =~= Seq::<u8>::empty());
            assert forall|post: Session, b2: Seq<u8>, rr: Result<(), Error>|
                #[trigger] drained(*self, post, b2, rr) implies drained(
                start,
                post,
                out@.skip(out0.len() as int) + b2,
                rr,
            ) by {
                assert(Seq::<u8>::empty() + b2 =~= b2);
            }
        }
        loop
            invariant
                out0 == old(out)@,
                session_with_input(start, *old(self), input@),
                self.wf(),
                self.description == old(self).description,
                out0.is_prefix_of(out@),
                forall|post: Session, b2: Seq<u8>, rr: Result<(), Error>|
                    #[trigger] drained(*self, post, b2, rr) ==> drained(
                        start,
                        post,
                        out@.skip(out0.len() as int) + b2,
                        rr,
                    ),
            decreases self.codec.decoder.stream(self.inbuf@).len(),
        {
            let ghost cur0 = *self;
            let ghost ext_prev = out@.skip(out0.len() as int);
            let ghost pre = self.codec.decoder.stream(self.inbuf@);
            let ghost d0 = self.codec.decoder;
            let ghost buf0 = self.inbuf@;
            proof {
                match d0.pending_frame_length {
                    Some(v) => {
                        crate::varint::lemma_varint_roundtrip(
                            v,
                            crate::decoder::plain_of(&d0.cipher, d0.cipher_cursor as int, buf0),
                        );
                    },
                    None => {},
                }
            }
            let step = self.codec.decode(&mut self.inbuf);
            match step {
                Ok(Some(packet)) => {
                    let ghost mid_s = *self;
                    let ghost out_mid = out@;
                    proof {
                        lemma_stream_len(&self.codec.decoder, self.inbuf@);
                        assert(decode_step(cur0, mid_s, packet));
                    }
                    match self.handle_packet(&packet, out) {
                        Ok(()) => {
                            proof {
                                lemma_stream_len(&self.codec.decoder, self.inbuf@);
                                let cur_new = *self;
                                let hb = out@.skip(out_mid.len() as int);
                                assert(handle_packet_ok(mid_s, cur_new, packet, hb));
                                lemma_drained_prepend(cur0, mid_s, packet, cur_new, hb);
                                assert(out@.skip(out0.len() as int) =~= ext_prev + hb);
                                assert forall|post: Session, b2: Seq<u8>, rr: Result<(), Error>|
                                    #[trigger] drained(cur_new, post, b2, rr) implies drained(
                                    start,
                                    post,
                                    out@.skip(out0.len() as int) + b2,
                                    rr,
                                ) by {
                                    assert(drained(cur0, post, hb + b2, rr));
                                    assert(drained(start, post, ext_prev + (hb + b2), rr));
                                    assert(ext_prev + (hb + b2) =~= (ext_prev + hb) + b2);
                                }
                            }
                        },
                        Err(e) => {
                            proof {
                                let hb = out@.skip(out_mid.len() as int);
                                assert(handle_packet_err(mid_s, packet, e));
                                lemma_drained_handle_err(
                                    cur0,
                                    mid_s,
                                    packet,
                                    *self,
                                    hb,
                                    e,
                                );
                                assert(drained(
                                    start,
                                    *self,
                                    ext_prev + hb,
                                    Err::<(), Error>(e),
                                ));
                                assert(out@.skip(out0.len() as int) =~= ext_prev + hb);
                            }
                            return Err(e);
                        },
                    }
                },
                Ok(None) => {
                    proof {
                        crate::varint::lemma_scan_props(pre);
                        let d = self.codec.decoder;
                        lemma_stream_len(&d, self.inbuf@);
                        assert(self.inbuf@.skip(d.cipher_cursor as int) =~= Seq::<u8>::empty());
                        match d.cipher {
                            Some(c) => {
                                assert(crate::cfb8::cfb8_decrypt(
                                    c.key@,
                                    c.sr@,
                                    self.inbuf@.skip(d.cipher_cursor as int),
                                ) =~= Seq::<u8>::empty());
                            },
                            None => {},
                        }
                        assert(crate::decoder::plain_of(
                            &d.cipher,
                            d.cipher_cursor as int,
                            self.inbuf@,
                        ) =~= self.inbuf@);
                        match d.pending_frame_length {
                            Some(v) => {
                                crate::varint::lemma_varint_roundtrip(
                                    v,
                                    crate::decoder::plain_of(
                                        &d.cipher,
                                        d.cipher_cursor as int,
                                        self.inbuf@,
                                    ),
                                );
                                assert(varint_dec32(pre) matches Ok(p) && d.pending_frame_length
                                    == Some(p.0) && frame_len(p.0) > self.inbuf@.len());
                                assert(d.stream(self.inbuf@).len() == crate::varint::varint_bytes(
                                    v,
                                ).len() + self.inbuf@.len());
                                assert(no_complete_frame(d.stream(self.inbuf@)));
                            },
                            None => {
                                assert(varint_dec32(pre) is Err);
                                assert(d.stream(self.inbuf@) == self.inbuf@);
                                assert(self.inbuf@ == pre);
                                assert(no_complete_frame(d.stream(self.inbuf@)));
                            },
                        }
                        assert(no_complete_frame(self.codec.decoder.stream(self.inbuf@)));
                        assert(decode_done(cur0, *self));
                        lemma_drained_done(cur0, *self);
                        assert(drained(
                            start,
                            *self,
                            ext_prev + Seq::<u8>::empty(),
                            Ok::<(), Error>(()),
                        ));
                        assert(out@.skip(out0.len() as int) =~= ext_prev + Seq::<u8>::empty());
                    }
                    return Ok(());
                },
                Err(e) => {
                    proof {
                        assert(decode_err(cur0, e));
                        lemma_drained_decode_err(cur0, *self, Seq::<u8>::empty(), e);
                        assert(drained(
                            start,
                            *self,
                            ext_prev + Seq::<u8>::empty(),
                            Err::<(), Error>(e),
                        ));
                        assert(out@.skip(out0.len() as int) =~= ext_prev + Seq::<u8>::empty());
                    }
                    return Err(e);
                },
            }
        }
    }
}

/// The stream a decoder state stands for is as long as its buffer,/// The stream a decoder state stands for is as long as its buffer,
/// plus the restored length prefix when one is pending.
proof fn lemma_stream_len(d: &crate::decoder::PacketDecoder, src: Seq<u8>)
    requires
        d.cipher_cursor <= src.len(),
    ensures
        d.pending_frame_length is None ==> d.stream(src).len() == src.len(),
        crate::decoder::plain_of(&d.cipher, d.cipher_cursor as int, src).len() == src.len(),
{
    match d.cipher {
        Some(c) => {
            crate::cfb8::lemma_cfb8_decrypt_len(c.key@, c.sr@, src.skip(d.cipher_cursor as int));
        },
        None => {},
    }
}

} // verus!
