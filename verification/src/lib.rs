//! Verified implementation of the Semtech GWMP protocol (the "UDP packet
//! forwarder" protocol): frame codec, JSON body codec, and the pure state
//! machines that drive the client and server runtimes.

pub mod base64;
pub mod client_runtime;
pub mod datarate;
pub mod json;
pub mod packet;
pub mod rng;
pub mod server_runtime;
pub mod types;

pub use datarate::{Bandwidth, CodingRate, DataRate, Modulation, SpreadingFactor};
pub use packet::{parser, pull_ack, pull_data, pull_resp, push_ack, push_data, tx_ack};
pub use packet::{Down, Error, Identifier, Packet, ParseError, SerializablePacket, Tmst, Up};
pub use types::{MacAddress, SocketAddress};
