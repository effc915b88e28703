//! The GWMP frame layer: the fixed binary prefix every frame starts with,
//! the six frame kinds, and the serializer each kind implements.

pub mod parser;
pub mod pull_ack;
pub mod pull_data;
pub mod pull_resp;
pub mod push_ack;
pub mod push_data;
pub mod tx_ack;

use vstd::prelude::*;

verus! {

use crate::json::JsonError;
use crate::types::MacAddress;

/// Byte 0 of every frame.
pub const PROTOCOL_VERSION: u8 = 2;

/// Byte 3 of every frame names its kind.
#[derive(Debug, Clone, Copy, PartialEq, Eq, Structural)]
pub enum Identifier {
    PushData,
    PushAck,
    PullData,
    PullResp,
    PullAck,
    TxAck,
}

/// The identifier byte of a frame kind.
pub open spec fn id_byte(id: Identifier) -> u8 {
    match id {
        Identifier::PushData => 0,
        Identifier::PushAck => 1,
        Identifier::PullData => 2,
        Identifier::PullResp => 3,
        Identifier::PullAck => 4,
        Identifier::TxAck => 5,
    }
}

/// The frame kind a byte names, if any.
pub open spec fn id_of_byte(b: u8) -> Option<Identifier> {
    if b == 0 {
        Some(Identifier::PushData)
    } else if b == 1 {
        Some(Identifier::PushAck)
    } else if b == 2 {
        Some(Identifier::PullData)
    } else if b == 3 {
        Some(Identifier::PullResp)
    } else if b == 4 {
        Some(Identifier::PullAck)
    } else if b == 5 {
        Some(Identifier::TxAck)
    } else {
        None
    }
}

impl Identifier {
    /// The identifier byte of this frame kind.
    pub fn to_byte(&self) -> (r: u8)
        ensures
            r == id_byte(*self),
    {
        match self {
            Identifier::PushData => 0,
            Identifier::PushAck => 1,
            Identifier::PullData => 2,
            Identifier::PullResp => 3,
            Identifier::PullAck => 4,
            Identifier::TxAck => 5,
        }
    }

    /// Reads an identifier byte.
    pub fn from_byte(b: u8) -> (r: Option<Identifier>)
        ensures
            r == id_of_byte(b),
    {
        if b == 0 {
            Some(Identifier::PushData)
        } else if b == 1 {
            Some(Identifier::PushAck)
        } else if b == 2 {
            Some(Identifier::PullData)
        } else if b == 3 {
            Some(Identifier::PullResp)
        } else if b == 4 {
            Some(Identifier::PullAck)
        } else if b == 5 {
            Some(Identifier::TxAck)
        } else {
            None
        }
    }
}

/// The three bytes every frame starts with: the protocol version and the
/// big-endian random token.
pub open spec fn preamble_bytes(token: u16) -> Seq<u8> {
    seq![PROTOCOL_VERSION, (token / 256) as u8, (token % 256) as u8]
}

/// Appends the protocol version and the big-endian token.
pub fn write_preamble(out: &mut Vec<u8>, token: u16)
    ensures
        final(out)@ == old(out)@ + preamble_bytes(token),
{
    out.push(PROTOCOL_VERSION);
    out.push((token / 256) as u8);
    out.push((token % 256) as u8);
    proof {
        assert(out@ =~= old(out)@ + preamble_bytes(token));
    }
}

/// A tmst field of a downlink: either a concentrator timestamp or the word
/// `"immediate"`.
#[derive(Debug, Clone, Copy, PartialEq, Eq, Structural)]
pub enum Tmst {
    Immediate,
    Tmst(u32),
}

/// Why a datagram was rejected.
#[derive(Debug)]
pub enum ParseError {
    /// The buffer is shorter than the layout requires: holds the length seen
    /// and the length needed.
    InvalidPacketLength(usize, usize),
    /// Byte 0 is not the protocol version.
    InvalidProtocolVersion(u8),
    /// Byte 3 names no frame kind.
    InvalidIdentifier(u8),
    /// A JSON string held ill-formed UTF-8.
    Utf8,
    /// The JSON body could not be read.
    InvalidJson { identifier: Identifier, json: Vec<u8>, cause: JsonError },
    /// A downlink arrived where only uplinks are expected.
    UnexpectedDownlink(Down),
    /// An uplink arrived where only downlinks are expected.
    UnexpectedUplink(Box<Up>),
}

/// Why a frame could not be written.
#[derive(Debug)]
pub enum Error {
    /// The caller's buffer is shorter than the frame.
    BufferTooSmall,
    Parse(ParseError),
}

/// A frame of either direction.
#[derive(Debug)]
pub enum Packet {
    Up(Up),
    Down(Down),
}

/// Gateway-to-server frames; these carry the gateway identifier.
#[derive(Debug)]
pub enum Up {
    PushData(push_data::Packet),
    PullData(pull_data::Packet),
    TxAck(tx_ack::Packet),
}

/// Server-to-gateway frames.
#[derive(Debug)]
pub enum Down {
    PushAck(push_ack::Packet),
    PullAck(pull_ack::Packet),
    PullResp(Box<pull_resp::Packet>),
}

impl Up {
    /// Stamps the gateway identifier, whichever kind this uplink is.
    pub fn set_gateway_mac(&mut self, mac: MacAddress)
        ensures
            match *final(self) {
                Up::PushData(p) => *old(self) matches Up::PushData(q) && p == (push_data::Packet {
                    gateway_mac: mac,
                    ..q
                }),
                Up::PullData(p) => *old(self) matches Up::PullData(q) && p == (pull_data::Packet {
                    gateway_mac: mac,
                    ..q
                }),
                Up::TxAck(p) => *old(self) matches Up::TxAck(q) && p == (tx_ack::Packet {
                    gateway_mac: mac,
                    ..q
                }),
            },
    {
        match self {
            Up::PushData(p) => p.gateway_mac = mac,
            Up::PullData(p) => p.gateway_mac = mac,
            Up::TxAck(p) => p.gateway_mac = mac,
        }
    }
}

/// A frame that can be written onto the wire.
pub trait SerializablePacket: Sized {
    /// The exact bytes this frame writes.
    spec fn wire_bytes(&self) -> Seq<u8>;

    /// Writes the frame over the front of `buffer`; the bytes past the frame
    /// keep their old values, as writing through a cursor would leave them.
    /// Succeeds exactly when the buffer is long enough, and returns the
    /// number of bytes written.
    fn serialize(&self, buffer: &mut Vec<u8>) -> (r: Result<u64, Error>)
        ensures
            match r {
                Ok(n) => {
                    &&& n as int == self.wire_bytes().len()
                    &&& self.wire_bytes().len() <= old(buffer)@.len()
                    &&& final(buffer)@ == self.wire_bytes() + old(buffer)@.skip(
                        self.wire_bytes().len() as int,
                    )
                },
                Err(e) => {
                    &&& final(buffer)@ == old(buffer)@
                    &&& self.wire_bytes().len() > old(buffer)@.len()
                    &&& e matches Error::BufferTooSmall
                },
            },
    ;
}

/// Lays `data` over the front of `buffer`, if it fits.
pub(crate) fn write_into(buffer: &mut Vec<u8>, data: &Vec<u8>) -> (r: Result<u64, Error>)
    ensures
        match r {
            Ok(n) => {
                &&& n as int == data@.len()
                &&& data@.len() <= old(buffer)@.len()
                &&& final(buffer)@ == data@ + old(buffer)@.skip(data@.len() as int)
            },
            Err(e) => {
                &&& final(buffer)@ == old(buffer)@
                &&& data@.len() > old(buffer)@.len()
                &&& e matches Error::BufferTooSmall
            },
        },
{
    if data.len() > buffer.len() {
        return Err(Error::BufferTooSmall);
    }
    let mut i: usize = 0;
    while i < data.len()
        invariant
            i <= data@.len(),
            data@.len() <= buffer@.len(),
            buffer@.len() == old(buffer)@.len(),
            buffer@ == data@.subrange(0, i as int) + old(buffer)@.skip(i as int),
        decreases data@.len() - i,
    {
        let ghost prev = buffer@;
        buffer[i] = data[i];
        i += 1;
        proof {
            assert(buffer@ =~= data@.subrange(0, i as int) + old(buffer)@.skip(i as int));
        }
    }
    proof {
        assert(buffer@ =~= data@ + old(buffer)@.skip(data@.len() as int));
    }
    Ok(data.len() as u64)
}

impl Packet {
    /// The exact bytes of this frame, whichever kind it is.
    pub open spec fn spec_wire_bytes(&self) -> Seq<u8> {
        match self {
            Packet::Up(up) => match up {
                Up::PushData(p) => p.wire_bytes(),
                Up::PullData(p) => p.wire_bytes(),
                Up::TxAck(p) => p.wire_bytes(),
            },
            Packet::Down(down) => match down {
                Down::PushAck(p) => p.wire_bytes(),
                Down::PullAck(p) => p.wire_bytes(),
                Down::PullResp(p) => p.wire_bytes(),
            },
        }
    }
}

impl SerializablePacket for Packet {
    open spec fn wire_bytes(&self) -> Seq<u8> {
        self.spec_wire_bytes()
    }

    fn serialize(&self, buffer: &mut Vec<u8>) -> (r: Result<u64, Error>) {
        match self {
            Packet::Up(up) => match up {
                Up::PushData(p) => p.serialize(buffer),
                Up::PullData(p) => p.serialize(buffer),
                Up::TxAck(p) => p.serialize(buffer),
            },
            Packet::Down(down) => match down {
                Down::PushAck(p) => p.serialize(buffer),
                Down::PullAck(p) => p.serialize(buffer),
                Down::PullResp(p) => p.serialize(buffer),
            },
        }
    }
}

} // verus!
