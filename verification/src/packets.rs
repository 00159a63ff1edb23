//! Typed packets, split by direction: `server` holds what clients send
//! to the gateway, `client` what the gateway sends back.

pub mod client;
pub mod server;
