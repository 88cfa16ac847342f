//! A CoAP (RFC 7252) library: the bit-exact message codec, the typed option
//! registry, and the per-peer state machines that multiplex one UDP socket.

pub mod message;
pub mod token;
pub mod wire;
pub mod options;
pub mod uint;
pub mod option;
pub mod error;
pub mod endpoint;
pub mod connection;
pub mod socket;
pub mod codec;
pub mod int_codec;
pub mod client;

pub use client::Client;
pub use endpoint::Endpoint;
pub use message::{Code, Message, Mtype};
pub use options::Options;
