use vstd::prelude::*;

verus! {

/// Everything that can go wrong while decoding or dispatching the wire
/// protocol. Each variant is terminal for the connection except
/// `UnexpectedEof`, which the framing layer uses internally to mean
/// "wait for more bytes".
#[derive(Debug, Clone, Copy, PartialEq, Eq, Structural)]
pub enum Error {
    /// More bytes are needed than are available.
    UnexpectedEof,
    /// A VarInt or VarLong had a continuation bit on its final permitted byte.
    Overflow,
    /// A length-prefixed string held invalid UTF-8.
    Utf8,
    /// No packet is known under this id for the current state and version.
    UnknownPacket(i32),
    /// A compressed frame body could not be inflated.
    Decompress,
    /// No dispatcher serves the current protocol state and version.
    NoDispatcher,
    /// A packet arrived before the packet that must precede it.
    OutOfOrder,
    /// The client asked for the transfer intent, which this gateway refuses.
    UnsupportedIntent,
    /// RSA decryption of a login secret failed.
    Rsa,
    /// The decrypted shared secret was not exactly 16 bytes.
    BadSharedSecret,
}

impl Error {
    /// A short human-readable name for the error, for logging by callers.
    pub fn describe(&self) -> &'static str {
        match self {
            Error::UnexpectedEof => "unexpected end of input",
            Error::Overflow => "variable-width integer overflow",
            Error::Utf8 => "invalid utf-8 in string",
            Error::UnknownPacket(_) => "unknown packet id",
            Error::Decompress => "frame decompression failed",
            Error::NoDispatcher => "no dispatcher for state and version",
            Error::OutOfOrder => "packet out of order",
            Error::UnsupportedIntent => "unsupported handshake intent",
            Error::Rsa => "rsa decryption failed",
            Error::BadSharedSecret => "shared secret must be 16 bytes",
        }
    }
}

} // verus!
