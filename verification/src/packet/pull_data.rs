//! PULL_DATA: the gateway's periodic keepalive, which also punches the NAT
//! route that later downlinks use. Twelve bytes: version, token, identifier,
//! gateway identifier.

use vstd::prelude::*;

verus! {

use crate::packet::{
    id_byte, preamble_bytes, pull_ack, write_into, write_preamble, Error, Identifier,
    SerializablePacket,
};
use crate::types::MacAddress;

#[derive(Debug, Clone, Copy, PartialEq, Eq)]
pub struct Packet {
    pub random_token: u16,
    pub gateway_mac: MacAddress,
}

impl Packet {
    /// The PULL_ACK answering this keepalive: it echoes the token.
    pub fn into_ack(self) -> (r: pull_ack::Packet)
        ensures
            r.random_token == self.random_token,
    {
        pull_ack::Packet { random_token: self.random_token }
    }
}

impl SerializablePacket for Packet {
    open spec fn wire_bytes(&self) -> Seq<u8> {
        preamble_bytes(self.random_token) + seq![id_byte(Identifier::PullData)]
            + self.gateway_mac@
    }

    fn serialize(&self, buffer: &mut Vec<u8>) -> (r: Result<u64, Error>) {
        let mut frame: Vec<u8> = Vec::new();
        write_preamble(&mut frame, self.random_token);
        frame.push(Identifier::PullData.to_byte());
        crate::json::push_bytes(&mut frame, self.gateway_mac.bytes());
        proof {
            assert(frame@ =~= self.wire_bytes());
        }
        write_into(buffer, &frame)
    }
}

} // verus!
