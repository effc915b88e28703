//! The client runtime's decision core: routing received downlinks, stamping
//! outgoing uplinks, and the connected-bit of the writer.

use vstd::prelude::*;

verus! {

use crate::packet::{pull_data, pull_resp, tx_ack, Down, ParseError, Up};
use crate::packet::pull_resp::TxPk;
use crate::types::MacAddress;

/// What the client reports to the application.
#[derive(Debug)]
pub enum Event {
    /// A send succeeded after earlier sends had failed.
    Reconnected,
    /// A send failed after earlier sends had succeeded.
    LostConnection,
    /// The server asked for a transmission.
    DownlinkRequest(DownlinkRequest),
    UnableToParseUdpFrame(ParseError, Vec<u8>),
}

/// A transmission request handed to the application: the request itself and
/// the gateway identity to answer under. The answer frames are built here;
/// the loop only queues them.
#[derive(Debug)]
pub struct DownlinkRequest {
    pub mac: MacAddress,
    pub pull_resp: pull_resp::Packet,
}

impl DownlinkRequest {
    /// The requested transmission.
    pub fn txpk(&self) -> (r: &TxPk)
        ensures
            r == &self.pull_resp.data.txpk,
    {
        &self.pull_resp.data.txpk
    }

    /// The TX_ACK reporting plain success, under the request's token.
    pub fn ack_packet(self) -> (r: tx_ack::Packet)
        ensures
            r.random_token == self.pull_resp.random_token,
            r.gateway_mac == self.mac,
            r.data == tx_ack::spec_default_data(),
    {
        let mac = self.mac;
        self.pull_resp.into_ack_for_gateway(mac)
    }

    /// The TX_ACK reporting a given outcome, under the request's token.
    pub fn nack_packet(self, error: tx_ack::Error) -> (r: tx_ack::Packet)
        ensures
            r.random_token == self.pull_resp.random_token,
            r.gateway_mac == self.mac,
            r.data == tx_ack::spec_data_with_error(error),
    {
        let mac = self.mac;
        self.pull_resp.into_nack_with_error_for_gateway(error, mac)
    }
}

/// What the reader does with one parsed downlink: a PULL_RESP becomes a
/// request for the application; the two acknowledgement kinds only attest
/// liveness and are dropped.
pub fn route_downlink(down: Down, mac: MacAddress) -> (r: Option<Event>)
    ensures
        match down {
            Down::PullResp(p) => r matches Some(Event::DownlinkRequest(req)) && req.mac == mac
                && req.pull_resp == *p,
            Down::PullAck(_) => r is None,
            Down::PushAck(_) => r is None,
        },
{
    match down {
        Down::PullResp(p) => Some(
            Event::DownlinkRequest(DownlinkRequest { mac, pull_resp: *p }),
        ),
        Down::PullAck(_) => None,
        Down::PushAck(_) => None,
    }
}

/// The writer's connected bit.
#[derive(Debug, Clone, Copy, PartialEq, Eq, Structural)]
pub struct WriterState {
    pub connected: bool,
}

impl WriterState {
    /// A writer starts connected.
    pub fn new() -> (r: WriterState)
        ensures
            r.connected,
    {
        WriterState { connected: true }
    }

    /// One send finished: the bit follows the outcome, and an event is
    /// emitted exactly on the two transitions — `Reconnected` on the first
    /// success after failures, `LostConnection` on the first failure after
    /// successes.
    pub fn after_send(&mut self, ok: bool) -> (r: Option<Event>)
        ensures
            final(self).connected == ok,
            match (old(self).connected, ok) {
                (false, true) => r matches Some(Event::Reconnected),
                (true, false) => r matches Some(Event::LostConnection),
                _ => r is None,
            },
    {
        let was = self.connected;
        self.connected = ok;
        if !was && ok {
            Some(Event::Reconnected)
        } else if was && !ok {
            Some(Event::LostConnection)
        } else {
            None
        }
    }
}

/// Stamps an uplink for the wire as the writer does: the configured gateway
/// identifier always; a fresh random token on data and keepalive frames,
/// while a TX_ACK keeps the token of the request it answers.
pub fn stamp_uplink(up: &mut Up, mac: MacAddress)
    ensures
        match *final(up) {
            Up::PushData(p) => *old(up) matches Up::PushData(q) && p.gateway_mac == mac && p.data
                == q.data,
            Up::PullData(p) => *old(up) matches Up::PullData(q) && p.gateway_mac == mac,
            Up::TxAck(p) => *old(up) matches Up::TxAck(q) && p == (tx_ack::Packet {
                gateway_mac: mac,
                ..q
            }),
        },
{
    up.set_gateway_mac(mac);
    match up {
        Up::PushData(p) => {
            p.random_token = rand::random();
        },
        Up::PullData(p) => {
            p.random_token = rand::random();
        },
        Up::TxAck(_) => {},
    }
}

/// A keepalive frame under a fresh random token; the writer stamps the
/// gateway identifier before it goes out.
pub fn keepalive_frame() -> (r: pull_data::Packet)
    ensures
        r.gateway_mac@ =~= Seq::new(8, |i: int| 0u8),
{
    pull_data::Packet { random_token: rand::random(), gateway_mac: MacAddress::new(&[0u8; 8]) }
}

} // verus!
