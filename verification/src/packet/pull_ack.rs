//! PULL_ACK: the server's reply that keeps the pull route open. Four bytes:
//! version, token, identifier.

use vstd::prelude::*;

verus! {

use crate::packet::{
    id_byte, preamble_bytes, write_into, write_preamble, Error, Identifier, SerializablePacket,
};

#[derive(Debug, Clone, Copy, PartialEq, Eq, Structural)]
pub struct Packet {
    pub random_token: u16,
}

impl SerializablePacket for Packet {
    open spec fn wire_bytes(&self) -> Seq<u8> {
        preamble_bytes(self.random_token) + seq![id_byte(Identifier::PullAck)]
    }

    fn serialize(&self, buffer: &mut Vec<u8>) -> (r: Result<u64, Error>) {
        let mut frame: Vec<u8> = Vec::new();
        write_preamble(&mut frame, self.random_token);
        frame.push(Identifier::PullAck.to_byte());
        proof {
            assert(frame@ =~= self.wire_bytes());
        }
        write_into(buffer, &frame)
    }
}

} // verus!
