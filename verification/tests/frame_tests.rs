//! Frame decoder tests: partial input, single and multiple frames, and
//! chunked arrival.

use minecrust::{FrameDecoder, VarInt};

#[test]
fn test_incomplete() {
    let mut stream: Vec<u8> = Vec::new();
    VarInt(10).serialize(&mut stream);
    stream.extend_from_slice(&[0x00, 0x01]);

    let mut decoder = FrameDecoder::new();
    let packets = decoder.decode(&stream).unwrap();
    assert_eq!(packets.len(), 0);

    assert_eq!(decoder.buffered_len(), 2);
}

#[test]
fn test_single() {
    let mut stream: Vec<u8> = Vec::new();
    VarInt(3).serialize(&mut stream); // packet length
    stream.extend_from_slice(&[0xff, 0xff, 0xff]);

    let mut decoder = FrameDecoder::new();
    let packets = decoder.decode(&stream).unwrap();
    let packet = packets.first().unwrap();
    assert_eq!(packet[..], [255u8, 255u8, 255u8]);

    assert_eq!(decoder.buffered_len(), 0);
}

#[test]
fn test_multi() {
    let mut stream: Vec<u8> = Vec::new();
    VarInt(3).serialize(&mut stream); // packet length
    stream.extend_from_slice(&[0xff, 0xff, 0xff]);
    VarInt(1).serialize(&mut stream); // packet length
    stream.extend_from_slice(&[0xff, 0xff]); // one excessive byte

    let mut decoder = FrameDecoder::new();
    let packets = decoder.decode(&stream).unwrap();
    let packet = packets.get(0).unwrap();
    assert_eq!(packet[..], [255u8, 255u8, 255u8]);
    let packet = packets.get(1).unwrap();
    assert_eq!(packet[..], [255u8]);

    assert_eq!(decoder.buffered_len(), 1);
}

#[test]
fn test_chunked() {
    let mut stream: Vec<u8> = Vec::new();
    VarInt(3).serialize(&mut stream); // packet length

    let mut decoder = FrameDecoder::new();

    let packets = decoder.decode(&stream).unwrap();
    assert_eq!(packets.len(), 0);

    let stream: Vec<u8> = vec![0xff, 0xff, 0xff];
    let packets = decoder.decode(&stream).unwrap();

    assert_eq!(packets.len(), 1);
    let packet = packets.first().unwrap();
    assert_eq!(packet[..], [255u8, 255u8, 255u8]);

    assert_eq!(decoder.buffered_len(), 0);
}

#[test]
fn frame_progress_retains_tail() {
    // one complete frame, then a strictly shorter prefix of a second
    let stream: Vec<u8> = vec![0x03, 0xff, 0xff, 0xff, 0x01, 0xaa];
    let mut decoder = FrameDecoder::new();
    let packets = decoder.decode(&stream).unwrap();
    assert_eq!(packets.len(), 2);
    assert_eq!(packets[0], vec![0xff, 0xff, 0xff]);
    assert_eq!(packets[1], vec![0xaa]);

    // chunk split inside the second frame body
    let mut decoder = FrameDecoder::new();
    let packets = decoder.decode(&[0x03]).unwrap();
    assert_eq!(packets.len(), 0);
    let packets = decoder.decode(&[0xff, 0xff, 0xff, 0x01, 0xaa]).unwrap();
    assert_eq!(packets.len(), 2);
    assert_eq!(packets[0], vec![0xff, 0xff, 0xff]);
    assert_eq!(decoder.buffered_len(), 0);
}

#[test]
fn frame_bad_length_prefix_is_terminal() {
    // six continuation bytes: the length prefix itself overflows
    let stream: Vec<u8> = vec![0x80, 0x80, 0x80, 0x80, 0x80, 0x01];
    let mut decoder = FrameDecoder::new();
    assert_eq!(decoder.decode(&stream).unwrap_err(), minecrust::Error::Overflow);
}
