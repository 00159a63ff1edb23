//! End-to-end driver tests: a whole status ping over the session, and
//! the wire-format and error behavior of the remaining pieces.

use minecrust::packets::server::{HandshakingIncoming, StatusIncoming};
use minecrust::wire;
use minecrust::{Error, FrameDecoder, Intent, PlainCodec, RawPacket, Session, VarInt};

/// Length-prefixes an id and body into one wire frame.
fn frame(id: i32, body: &[u8]) -> Vec<u8> {
    let mut packet: Vec<u8> = Vec::new();
    VarInt(id).serialize(&mut packet);
    packet.extend_from_slice(body);
    let mut out: Vec<u8> = Vec::new();
    VarInt(packet.len() as i32).serialize(&mut out);
    out.extend_from_slice(&packet);
    out
}

fn intention_body(version: i32, addr: &str, port: u16, intent: i32) -> Vec<u8> {
    let mut body: Vec<u8> = Vec::new();
    VarInt(version).serialize(&mut body);
    wire::write_string(&mut body, addr);
    wire::write_u16(&mut body, port);
    VarInt(intent).serialize(&mut body);
    body
}

#[test]
fn status_ping_end_to_end() {
    let mut session = Session::new(String::from("hello there"));
    let mut out: Vec<u8> = Vec::new();

    // handshake: no reply expected
    session
        .process(&frame(0, &intention_body(773, "localhost", 25565, 1)), &mut out)
        .unwrap();
    assert!(out.is_empty());

    // status request, then ping, in one chunk
    let mut chunk = frame(0, &[]);
    let mut ping_body: Vec<u8> = Vec::new();
    wire::write_i64(&mut ping_body, 42);
    chunk.extend_from_slice(&frame(1, &ping_body));
    session.process(&chunk, &mut out).unwrap();

    // the replies are plain frames: status response, then pong
    let mut frames = FrameDecoder::new();
    let replies = frames.decode(&out).unwrap();
    assert_eq!(replies.len(), 2);

    let status = RawPacket::try_from(&replies[0]).unwrap();
    assert_eq!(status.id.value(), 0);
    let (json, _) = wire::read_string(&status.data, 0).unwrap();
    assert!(json.contains("\"protocol\": 0"));
    assert!(json.contains("\"description\": { \"text\": \"hello there\" }"));

    let pong = RawPacket::try_from(&replies[1]).unwrap();
    assert_eq!(pong.id.value(), 1);
    let (ts, _) = wire::read_i64(&pong.data, 0).unwrap();
    assert_eq!(ts, 42);
}

#[test]
fn session_without_handshake_refuses_status_version() {
    let mut session = Session::new(String::new());
    let mut out: Vec<u8> = Vec::new();

    // announce an old protocol version: no dispatcher serves it
    let err = session
        .process(&frame(0, &intention_body(5, "localhost", 25565, 1)), &mut out)
        .unwrap_err();
    assert_eq!(err, Error::NoDispatcher);
}

#[test]
fn session_buffers_partial_frames() {
    let mut session = Session::new(String::new());
    let mut out: Vec<u8> = Vec::new();

    let handshake = frame(0, &intention_body(773, "localhost", 25565, 1));
    let (a, b) = handshake.split_at(3);
    session.process(a, &mut out).unwrap();
    session.process(b, &mut out).unwrap();

    // the handshake completed across chunks: a status request now answers
    session.process(&frame(0, &[]), &mut out).unwrap();
    assert!(!out.is_empty());
}

#[test]
fn plain_codec_length_prefixes() {
    let codec = PlainCodec { protocol_version: 773 };
    let bytes = codec.encode(&[0x00, 0x2a]);
    assert_eq!(bytes, vec![0x02, 0x00, 0x2a]);
}

#[test]
fn handshaking_incoming_parses_intention() {
    let mut data: Vec<u8> = Vec::new();
    VarInt(0).serialize(&mut data);
    data.extend_from_slice(&intention_body(773, "example.org", 25565, 2));
    let packet = HandshakingIncoming::deserialize(&data).unwrap();
    let HandshakingIncoming::Intention(i) = packet;
    assert_eq!(i.protocol_version, 773);
    assert_eq!(i.server_address, "example.org");
    assert_eq!(i.server_port, 25565);
    assert_eq!(i.intent, Intent::Login);
}

#[test]
fn status_incoming_rejects_unknown_id() {
    let mut data: Vec<u8> = Vec::new();
    VarInt(9).serialize(&mut data);
    let err = StatusIncoming::deserialize(&data).unwrap_err();
    assert_eq!(err, Error::UnknownPacket(9));
}

#[test]
fn string_rejects_invalid_utf8() {
    // length 2, then an orphan continuation byte
    let data: Vec<u8> = vec![0x02, 0xff, 0xfe];
    assert_eq!(wire::read_string(&data, 0).unwrap_err(), Error::Utf8);
}

#[test]
fn string_roundtrip() {
    let mut data: Vec<u8> = Vec::new();
    wire::write_string(&mut data, "héllo wörld");
    let (s, pos) = wire::read_string(&data, 0).unwrap();
    assert_eq!(s, "héllo wörld");
    assert_eq!(pos, data.len());
}

#[test]
fn empty_string_is_one_zero_byte() {
    let mut data: Vec<u8> = Vec::new();
    wire::write_string(&mut data, "");
    assert_eq!(data, vec![0x00]);
}
