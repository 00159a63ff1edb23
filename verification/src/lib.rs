//! Core of a Minecraft-protocol edge gateway: variable-width integer and
//! primitive wire codecs, typed packet (de)serialization, an AES-128/CFB-8
//! stream cipher, length-prefixed framing with optional Zlib compression,
//! and the per-connection dispatch state machine.
//!
//! All I/O stays outside: the library takes bytes and packets in and
//! hands bytes and actions back.

use vstd::prelude::*;

pub mod cfb8;
pub mod codec;
pub mod compress;
pub mod datatype;
pub mod decoder;
pub mod dispatch;
pub mod encoder;
pub mod error;
pub mod frame;
pub mod packet;
pub mod packets;
pub mod pipeline;
pub mod session;
pub mod varint;
pub mod wire;

pub use codec::{PacketCodec, PlainCodec};
pub use datatype::{GameProfile, GameProfileProperties, Intent, TextComponent, Uuid};
pub use decoder::PacketDecoder;
pub use dispatch::{Action, Dispatcher, ProtocolState};
pub use encoder::PacketEncoder;
pub use error::Error;
pub use frame::FrameDecoder;
pub use packet::RawPacket;
pub use pipeline::InboundPipeline;
pub use session::{Context, Session};
pub use varint::{VarInt, VarLong};

verus! {

} // verus!
