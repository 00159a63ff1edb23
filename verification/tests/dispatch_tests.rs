//! Dispatcher tests: the handshake decision, status answers, unknown
//! ids, and the full RSA login exchange.

use minecrust::dispatch::{HandshakeDispatcher, LoginDispatcher, StatusDispatcher};
use minecrust::wire;
use minecrust::{Action, Error, ProtocolState, RawPacket, Uuid, VarInt};

use rsa::pkcs8::DecodePublicKey;

fn intention_body(version: i32, addr: &str, port: u16, intent: i32) -> Vec<u8> {
    let mut body: Vec<u8> = Vec::new();
    VarInt(version).serialize(&mut body);
    wire::write_string(&mut body, addr);
    wire::write_u16(&mut body, port);
    VarInt(intent).serialize(&mut body);
    body
}

#[test]
fn handshake_selects_status() {
    let mut d = HandshakeDispatcher;
    let packet = RawPacket::new(0, intention_body(773, "localhost", 25565, 1));
    let actions = d.dispatch(&packet).unwrap();
    assert_eq!(actions.len(), 2);
    assert!(matches!(actions[0], Action::ProtocolVersion(773)));
    assert!(matches!(
        actions[1],
        Action::ProtocolState(ProtocolState::Status)
    ));
}

#[test]
fn handshake_selects_login() {
    let mut d = HandshakeDispatcher;
    let packet = RawPacket::new(0, intention_body(773, "localhost", 25565, 2));
    let actions = d.dispatch(&packet).unwrap();
    assert_eq!(actions.len(), 2);
    assert!(matches!(actions[0], Action::ProtocolVersion(773)));
    assert!(matches!(
        actions[1],
        Action::ProtocolState(ProtocolState::Login)
    ));
}

#[test]
fn handshake_refuses_transfer() {
    let mut d = HandshakeDispatcher;
    let packet = RawPacket::new(0, intention_body(773, "localhost", 25565, 3));
    assert_eq!(d.dispatch(&packet).unwrap_err(), Error::UnsupportedIntent);
}

#[test]
fn status_request_answers_json() {
    let mut d = StatusDispatcher {
        description: String::from("A quiet corner"),
    };
    let actions = d.dispatch(&RawPacket::new(0, Vec::new())).unwrap();
    assert_eq!(actions.len(), 1);
    let p = match &actions[0] {
        Action::SendPacket(p) => p,
        _ => panic!("expected a packet"),
    };
    assert_eq!(p.id.value(), 0);
    let (json, _) = wire::read_string(&p.data, 0).unwrap();
    assert_eq!(
        json,
        "{ \"version\": { \"name\": \"Maintenance\", \"protocol\": 0 }, \
         \"description\": { \"text\": \"A quiet corner\" }, \"enforcesSecureChat\": false }"
    );
}

#[test]
fn ping_answers_pong_with_same_timestamp() {
    let mut d = StatusDispatcher {
        description: String::new(),
    };
    let mut body: Vec<u8> = Vec::new();
    wire::write_i64(&mut body, 42);
    let actions = d.dispatch(&RawPacket::new(1, body)).unwrap();
    assert_eq!(actions.len(), 1);
    let p = match &actions[0] {
        Action::SendPacket(p) => p,
        _ => panic!("expected a packet"),
    };
    assert_eq!(p.id.value(), 1);
    let (ts, _) = wire::read_i64(&p.data, 0).unwrap();
    assert_eq!(ts, 42);
}

#[test]
fn unknown_status_id_is_ignored() {
    let mut d = StatusDispatcher {
        description: String::new(),
    };
    let actions = d.dispatch(&RawPacket::new(0x7f, vec![1, 2, 3])).unwrap();
    assert_eq!(actions.len(), 0);

    // subsequent valid packets continue to be processed
    let mut body: Vec<u8> = Vec::new();
    wire::write_i64(&mut body, 7);
    let actions = d.dispatch(&RawPacket::new(1, body)).unwrap();
    assert_eq!(actions.len(), 1);
}

fn hello_body(name: &str, uuid: Uuid) -> Vec<u8> {
    let mut body: Vec<u8> = Vec::new();
    wire::write_string(&mut body, name);
    uuid.serialize(&mut body);
    body
}

/// Runs the Hello step and hands back the offered DER public key.
fn do_hello(d: &mut LoginDispatcher) -> Vec<u8> {
    let uuid = Uuid {
        msb: 0x1122334455667788,
        lsb: 0x99aabbccddeeff00,
    };
    let actions = d
        .dispatch(&RawPacket::new(0, hello_body("tester", uuid)))
        .unwrap();
    assert_eq!(actions.len(), 1);
    let p = match &actions[0] {
        Action::SendPacket(p) => p,
        _ => panic!("expected a packet"),
    };
    assert_eq!(p.id.value(), 1);
    let (server_id, pos) = wire::read_string(&p.data, 0).unwrap();
    assert_eq!(server_id, "");
    let (public_key, pos) = wire::read_byte_vec(&p.data, pos).unwrap();
    let token: Vec<u8> = p.data[pos..pos + 32].to_vec();
    assert_eq!(token, d.verification_token);
    assert_eq!(p.data[pos + 32], 0x01); // should_authenticate
    public_key
}

fn key_body(public_key: &[u8], secret: &[u8], token: &[u8]) -> Vec<u8> {
    let pk = rsa::RsaPublicKey::from_public_key_der(public_key).unwrap();
    let mut rng = rand::thread_rng();
    let enc_secret = pk.encrypt(&mut rng, rsa::Pkcs1v15Encrypt, secret).unwrap();
    let enc_token = pk.encrypt(&mut rng, rsa::Pkcs1v15Encrypt, token).unwrap();
    let mut body: Vec<u8> = Vec::new();
    wire::write_byte_vec(&mut body, &enc_secret);
    wire::write_byte_vec(&mut body, &enc_token);
    body
}

#[test]
fn login_encrypted_handshake() {
    let mut d = LoginDispatcher::new().unwrap();
    let public_key = do_hello(&mut d);

    let secret: [u8; 16] = *b"0123456789abcdef";
    let token = d.verification_token.clone();
    let actions = d
        .dispatch(&RawPacket::new(1, key_body(&public_key, &secret, &token)))
        .unwrap();

    assert_eq!(actions.len(), 4);
    match &actions[0] {
        Action::EnableEncryption(s) => assert_eq!(s.as_slice(), &secret),
        _ => panic!("expected encryption first"),
    }
    match &actions[1] {
        Action::SendPacket(p) => {
            assert_eq!(p.id.value(), 3);
            let (threshold, _) = VarInt::deserialize(&p.data).unwrap();
            assert_eq!(threshold.value(), 256);
        }
        _ => panic!("expected the compression announcement"),
    }
    assert!(matches!(actions[2], Action::EnableCompression(256)));
    match &actions[3] {
        Action::SendPacket(p) => {
            assert_eq!(p.id.value(), 2);
            // the login finish carries the stored profile
            let (uuid, pos) = Uuid::deserialize(&p.data, 0).unwrap();
            assert_eq!(uuid.msb, 0x1122334455667788);
            assert_eq!(uuid.lsb, 0x99aabbccddeeff00);
            let (name, pos) = wire::read_string(&p.data, pos).unwrap();
            assert_eq!(name, "tester");
            let (props, _) = VarInt::deserialize(&p.data[pos..]).unwrap();
            assert_eq!(props.value(), 0);
        }
        _ => panic!("expected the login finish"),
    }
}

#[test]
fn login_wrong_token_objects_but_continues() {
    let mut d = LoginDispatcher::new().unwrap();
    let public_key = do_hello(&mut d);

    let secret: [u8; 16] = *b"0123456789abcdef";
    let wrong_token = vec![0u8; 32];
    let actions = d
        .dispatch(&RawPacket::new(
            1,
            key_body(&public_key, &secret, &wrong_token),
        ))
        .unwrap();

    assert_eq!(actions.len(), 5);
    match &actions[0] {
        Action::SendPacket(p) => {
            assert_eq!(p.id.value(), 0); // the disconnect notice
            let (reason, _) = wire::read_string(&p.data, 0).unwrap();
            assert!(reason.contains("Unsecure connection."));
        }
        _ => panic!("expected the disconnect notice"),
    }
    assert!(matches!(&actions[1], Action::EnableEncryption(_)));
}

#[test]
fn login_short_secret_is_refused() {
    let mut d = LoginDispatcher::new().unwrap();
    let public_key = do_hello(&mut d);
    let token = d.verification_token.clone();
    let err = d
        .dispatch(&RawPacket::new(1, key_body(&public_key, b"short", &token)))
        .unwrap_err();
    assert_eq!(err, Error::BadSharedSecret);
}

#[test]
fn login_key_before_hello_is_out_of_order() {
    let mut d = LoginDispatcher::new().unwrap();
    let public_key = d.public_key.clone();
    let token = d.verification_token.clone();
    let secret: [u8; 16] = *b"0123456789abcdef";
    let err = d
        .dispatch(&RawPacket::new(1, key_body(&public_key, &secret, &token)))
        .unwrap_err();
    assert_eq!(err, Error::OutOfOrder);
}

#[test]
fn login_acknowledged_moves_to_configuration() {
    let mut d = LoginDispatcher::new().unwrap();
    let actions = d.dispatch(&RawPacket::new(3, Vec::new())).unwrap();
    assert_eq!(actions.len(), 1);
    assert!(matches!(
        actions[0],
        Action::ProtocolState(ProtocolState::Configuration)
    ));
}
