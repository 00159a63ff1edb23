//! Wire-form tests for VarInt and VarLong, covering the canonical
//! vector table in both directions.

use minecrust::{VarInt, VarLong};

const VAR_INT_CASES: [(i32, &[u8]); 11] = [
    (0, &[0x00]),
    (1, &[0x01]),
    (2, &[0x02]),
    (127, &[0x7f]),
    (128, &[0x80, 0x01]),
    (255, &[0xff, 0x01]),
    (25565, &[0xdd, 0xc7, 0x01]),
    (2097151, &[0xff, 0xff, 0x7f]),
    (2147483647, &[0xff, 0xff, 0xff, 0xff, 0x07]),
    (-1, &[0xff, 0xff, 0xff, 0xff, 0x0f]),
    (-2147483648, &[0x80, 0x80, 0x80, 0x80, 0x08]),
];

const VAR_LONG_CASES: [(i64, &[u8]); 11] = [
    (0, &[0x00]),
    (1, &[0x01]),
    (2, &[0x02]),
    (127, &[0x7f]),
    (128, &[0x80, 0x01]),
    (255, &[0xff, 0x01]),
    (2147483647, &[0xff, 0xff, 0xff, 0xff, 0x07]),
    (
        9223372036854775807,
        &[0xff, 0xff, 0xff, 0xff, 0xff, 0xff, 0xff, 0xff, 0x7f],
    ),
    (
        -1,
        &[0xff, 0xff, 0xff, 0xff, 0xff, 0xff, 0xff, 0xff, 0xff, 0x01],
    ),
    (
        -2147483648,
        &[0x80, 0x80, 0x80, 0x80, 0xf8, 0xff, 0xff, 0xff, 0xff, 0x01],
    ),
    (
        -9223372036854775808,
        &[0x80, 0x80, 0x80, 0x80, 0x80, 0x80, 0x80, 0x80, 0x80, 0x01],
    ),
];

#[test]
fn var_int_test_deserialize() {
    for (expected_num, bytes) in VAR_INT_CASES {
        let var_int = VarInt::deserialize(bytes);
        assert!(var_int.is_ok());

        let (var_int, consumed) = var_int.unwrap();
        let int = var_int.value();
        assert_eq!(int, expected_num);

        assert_eq!(bytes.len() - consumed, 0);
    }
}

#[test]
fn var_int_test_serialize() {
    for (num, expected) in VAR_INT_CASES {
        let var_int = VarInt(num);

        let mut buf: Vec<u8> = Vec::new();
        var_int.serialize(&mut buf);
        assert_eq!(&buf, expected);
    }
}

#[test]
fn var_long_test_deserialize() {
    for (expected_num, bytes) in VAR_LONG_CASES {
        let num_bytes = bytes.len();
        let var_long = VarLong::deserialize(bytes);
        assert!(var_long.is_ok());

        let var_long = var_long.unwrap();
        let int = var_long.value();
        assert_eq!(int, expected_num);

        assert_eq!(var_long.consumed(), num_bytes)
    }
}

#[test]
fn var_long_test_serialize() {
    for (num, expected) in VAR_LONG_CASES {
        let var_long = VarLong::new(num);

        let mut bytes: Vec<u8> = Vec::new();
        var_long.serialize(&mut bytes);
        assert_eq!(&bytes, expected);
    }
}

#[test]
fn var_int_boundary_25565() {
    let (v, consumed) = VarInt::deserialize(&[0xdd, 0xc7, 0x01]).unwrap();
    assert_eq!(v.value(), 25565);
    assert_eq!(consumed, 3);

    let mut out: Vec<u8> = Vec::new();
    VarInt(25565).serialize(&mut out);
    assert_eq!(out, vec![0xdd, 0xc7, 0x01]);
}

#[test]
fn var_int_atomic_on_partial_input() {
    // a continuation bit with nothing after it: need more bytes
    assert_eq!(
        VarInt::deserialize(&[0x80]).unwrap_err(),
        minecrust::Error::UnexpectedEof
    );
    assert_eq!(
        VarInt::deserialize(&[]).unwrap_err(),
        minecrust::Error::UnexpectedEof
    );
}

#[test]
fn var_int_overflow_on_sixth_byte() {
    // five continuation bytes would demand a sixth
    assert_eq!(
        VarInt::deserialize(&[0x80, 0x80, 0x80, 0x80, 0x80, 0x01]).unwrap_err(),
        minecrust::Error::Overflow
    );
}

#[test]
fn var_long_overflow_on_eleventh_byte() {
    assert_eq!(
        VarLong::deserialize(&[0x80; 11]).unwrap_err(),
        minecrust::Error::Overflow
    );
}

#[test]
fn var_int_ignores_trailing_bytes() {
    let (v, consumed) = VarInt::deserialize(&[0x7f, 0xaa, 0xbb]).unwrap();
    assert_eq!(v.value(), 127);
    assert_eq!(consumed, 1);
}
