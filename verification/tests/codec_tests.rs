//! Cipher, compression and full-codec tests: self-inverse encryption,
//! both compression branches, and round trips with encryption enabled
//! mid-stream.

use minecrust::cfb8::Cfb8Cipher;
use minecrust::compress::{compress_frame, decompress_frame};
use minecrust::{InboundPipeline, PacketCodec, RawPacket, VarInt};

const SECRET: [u8; 16] = [
    0x00, 0x01, 0x02, 0x03, 0x04, 0x05, 0x06, 0x07, 0x08, 0x09, 0x0a, 0x0b, 0x0c, 0x0d, 0x0e,
    0x0f,
];

#[test]
fn cfb8_self_inverse() {
    let mut enc = Cfb8Cipher::new(&SECRET);
    let mut dec = Cfb8Cipher::new(&SECRET);

    let original: Vec<u8> = (0u16..500).map(|i| (i % 251) as u8).collect();
    let mut buf = original.clone();
    enc.encrypt(&mut buf);
    assert_ne!(buf, original);
    dec.decrypt(&mut buf);
    assert_eq!(buf, original);
}

#[test]
fn cfb8_known_keystream_byte() {
    // AES-128 of the all-zero block under the all-zero key starts 0x66,
    // so encrypting a zero byte at the initial state yields it back
    let zero = [0u8; 16];
    let mut enc = Cfb8Cipher::new(&zero);
    let c = enc.encrypt_byte(0x00);
    assert_eq!(c, 0x66);
}

#[test]
fn cfb8_byte_by_byte_matches_bulk() {
    let mut a = Cfb8Cipher::new(&SECRET);
    let mut b = Cfb8Cipher::new(&SECRET);
    let original: Vec<u8> = vec![0x10, 0x20, 0x30, 0x40, 0x50];
    let mut bulk = original.clone();
    a.encrypt(&mut bulk);
    let single: Vec<u8> = original.iter().map(|&p| b.encrypt_byte(p)).collect();
    assert_eq!(bulk, single);
}

#[test]
fn compression_below_threshold_passes_through() {
    let body: Vec<u8> = (0u8..100).collect();
    let framed = compress_frame(256, &body);
    let mut expected: Vec<u8> = vec![0x00];
    expected.extend_from_slice(&body);
    assert_eq!(framed, expected);

    let recovered = decompress_frame(&framed).unwrap();
    assert_eq!(recovered, body);
}

#[test]
fn compression_above_threshold_deflates() {
    let body: Vec<u8> = vec![0x42; 512];
    let framed = compress_frame(256, &body);

    // data length prefix: VarInt 512
    let (len, consumed) = VarInt::deserialize(&framed).unwrap();
    assert_eq!(len.value(), 512);
    // a Zlib stream follows, not the raw body
    assert_eq!(framed[consumed], 0x78);
    assert!(framed.len() < body.len() + consumed);

    let recovered = decompress_frame(&framed).unwrap();
    assert_eq!(recovered, body);
}

#[test]
fn compression_rejects_garbage() {
    // claims deflated data, holds garbage
    let framed: Vec<u8> = vec![0x05, 0xde, 0xad, 0xbe, 0xef];
    assert_eq!(
        decompress_frame(&framed).unwrap_err(),
        minecrust::Error::Decompress
    );
}

fn roundtrip(codec_out: &mut PacketCodec, codec_in: &mut PacketCodec, id: i32, body: &[u8]) -> RawPacket {
    let mut wire: Vec<u8> = Vec::new();
    codec_out
        .encode(&RawPacket::new(id, body.to_vec()), &mut wire)
        .unwrap();
    let packet = codec_in.decode(&mut wire).unwrap().unwrap();
    assert!(wire.is_empty());
    packet
}

#[test]
fn codec_roundtrip_plain() {
    let mut a = PacketCodec::new();
    let mut b = PacketCodec::new();
    let p = roundtrip(&mut a, &mut b, 0x07, &[1, 2, 3]);
    assert_eq!(p.id.value(), 0x07);
    assert_eq!(p.data, vec![1, 2, 3]);
}

#[test]
fn codec_roundtrip_with_encryption_mid_stream() {
    let mut server = PacketCodec::new();
    let mut client = PacketCodec::new();

    // before encryption: decodes identically
    let p = roundtrip(&mut server, &mut client, 1, &[0xaa, 0xbb]);
    assert_eq!(p.data, vec![0xaa, 0xbb]);

    // enable encryption on both sides with the same secret
    server.enable_crypto(&SECRET);
    client.enable_crypto(&SECRET);

    let p = roundtrip(&mut server, &mut client, 2, &[0xcc, 0xdd, 0xee]);
    assert_eq!(p.id.value(), 2);
    assert_eq!(p.data, vec![0xcc, 0xdd, 0xee]);

    // and the cipher state carries across packets
    let p = roundtrip(&mut server, &mut client, 3, &[0x11]);
    assert_eq!(p.data, vec![0x11]);
}

#[test]
fn codec_encrypted_bytes_differ_on_wire() {
    let mut plain_codec = PacketCodec::new();
    let mut enc_codec = PacketCodec::new();
    enc_codec.enable_crypto(&SECRET);

    let packet = RawPacket::new(1, vec![5, 6, 7]);
    let mut plain_wire: Vec<u8> = Vec::new();
    plain_codec.encode(&packet, &mut plain_wire).unwrap();
    let packet = RawPacket::new(1, vec![5, 6, 7]);
    let mut enc_wire: Vec<u8> = Vec::new();
    enc_codec.encode(&packet, &mut enc_wire).unwrap();

    assert_eq!(plain_wire.len(), enc_wire.len());
    assert_ne!(plain_wire, enc_wire);

    // without the matching cipher state the bytes do not decode
    let mut wrong = PacketCodec::new();
    let mut buf = enc_wire.clone();
    // either an error or a wrong packet, never the original payload
    match wrong.decode(&mut buf) {
        Ok(Some(p)) => assert_ne!(p.data, vec![5, 6, 7]),
        _ => {}
    }
}

#[test]
fn codec_roundtrip_compressed_and_encrypted() {
    let mut server = PacketCodec::new();
    let mut client = PacketCodec::new();
    server.enable_crypto(&SECRET);
    client.enable_crypto(&SECRET);
    server.enable_compression(16);
    client.enable_compression(16);

    // over the threshold: compressed on the wire
    let body: Vec<u8> = vec![9u8; 300];
    let p = roundtrip(&mut server, &mut client, 4, &body);
    assert_eq!(p.data, body);

    // under the threshold: the zero marker branch
    let p = roundtrip(&mut server, &mut client, 5, &[1, 2]);
    assert_eq!(p.data, vec![1, 2]);
}

#[test]
fn codec_decodes_chunked_arrival() {
    let mut server = PacketCodec::new();
    let mut client = PacketCodec::new();
    server.enable_crypto(&SECRET);
    client.enable_crypto(&SECRET);

    let mut wire: Vec<u8> = Vec::new();
    server
        .encode(&RawPacket::new(9, vec![3, 1, 4, 1, 5]), &mut wire)
        .unwrap();

    // feed one byte at a time: the cipher cursor must keep every byte
    // decrypted exactly once
    let mut buf: Vec<u8> = Vec::new();
    let mut decoded = None;
    for b in wire {
        buf.push(b);
        if let Some(p) = client.decode(&mut buf).unwrap() {
            decoded = Some(p);
        }
    }
    let p = decoded.expect("packet should complete on the last byte");
    assert_eq!(p.id.value(), 9);
    assert_eq!(p.data, vec![3, 1, 4, 1, 5]);
}

#[test]
fn inbound_pipeline_decrypts_and_splits() {
    let mut pipeline = InboundPipeline::new();

    // one plain frame: length 3, id 5, payload [9, 9]
    let packets = pipeline.process(&[0x03, 0x05, 0x09, 0x09]).unwrap();
    assert_eq!(packets.len(), 1);
    assert_eq!(packets[0].id.value(), 5);
    assert_eq!(packets[0].data, vec![9, 9]);

    // from here the wire is encrypted
    pipeline.enable_crypto(&SECRET);
    let mut enc = Cfb8Cipher::new(&SECRET);
    let mut wire: Vec<u8> = vec![0x02, 0x07, 0xaa];
    enc.encrypt(&mut wire);
    let packets = pipeline.process(&wire).unwrap();
    assert_eq!(packets.len(), 1);
    assert_eq!(packets[0].id.value(), 7);
    assert_eq!(packets[0].data, vec![0xaa]);
}
