//! Reading frames off the wire: the strict four-byte prefix, the gateway
//! identifier where the kind carries one, and the JSON body where one is
//! expected.

use vstd::prelude::*;

verus! {

use crate::json::{parse_json, spec_parse_json, view_of, JsonError, JsonValue, SpecJson};
use crate::packet::{
    id_of_byte, pull_ack, pull_data, pull_resp, push_ack, push_data, tx_ack, Down, Identifier,
    Packet, ParseError, SerializablePacket, Up, PROTOCOL_VERSION,
};
use crate::types::MacAddress;

broadcast use crate::types::lemma_mac_len;

/// The big-endian token in bytes 1 and 2.
pub open spec fn spec_token(buffer: Seq<u8>) -> int {
    buffer[1] * 256 + buffer[2]
}

/// The big-endian token in bytes 1 and 2.
pub fn random_token(buffer: &[u8]) -> (r: u16)
    requires
        buffer@.len() >= 3,
    ensures
        r as int == spec_token(buffer@),
{
    (buffer[1] as u16) * 256 + buffer[2] as u16
}

/// Reads the eight-byte gateway identifier at the front of a buffer.
pub fn gateway_mac(buffer: &[u8]) -> (r: Result<MacAddress, ParseError>)
    ensures
        match r {
            Ok(mac) => buffer@.len() >= 8 && mac@ == buffer@.subrange(0, 8),
            Err(e) => buffer@.len() < 8 && (e matches ParseError::InvalidPacketLength(got, need)
                && got == buffer@.len() && need == 8),
        },
{
    if buffer.len() < 8 {
        return Err(ParseError::InvalidPacketLength(buffer.len(), 8));
    }
    let bytes: [u8; 8] = [
        buffer[0],
        buffer[1],
        buffer[2],
        buffer[3],
        buffer[4],
        buffer[5],
        buffer[6],
        buffer[7],
    ];
    let mac = MacAddress::new(&bytes);
    proof {
        assert(mac@ =~= buffer@.subrange(0, 8));
    }
    Ok(mac)
}

/// Where a body beginning at `start` ends: one trailing zero byte, which
/// some forwarders append, is dropped.
pub open spec fn spec_body_end(buffer: Seq<u8>, start: int) -> int {
    if buffer.len() > start && buffer[buffer.len() - 1] == 0 {
        buffer.len() - 1
    } else {
        buffer.len() as int
    }
}

/// Where the body of `buf` ends: its length, less one trailing zero byte if
/// the buffer is not empty.
pub fn terminate(buf: &[u8]) -> (r: usize)
    ensures
        r as int == spec_body_end(buf@, 0),
        r <= buf@.len(),
{
    if buf.is_empty() {
        0
    } else if buf[buf.len() - 1] == 0 {
        buf.len() - 1
    } else {
        buf.len()
    }
}

/// The body bytes that the JSON layer sees.
pub open spec fn spec_body(buffer: Seq<u8>, start: int) -> Seq<u8> {
    buffer.subrange(start, spec_body_end(buffer, start))
}

/// What the parser promises for a PUSH_DATA frame long enough to carry its
/// identifier and body.
pub open spec fn push_data_result(buffer: Seq<u8>, r: Result<Packet, ParseError>) -> bool {
    match r {
        Ok(pkt) => pkt matches Packet::Up(Up::PushData(p)) && p.random_token as int == spec_token(
            buffer,
        ) && p.gateway_mac@ == buffer.subrange(4, 12) && (exists|t: JsonValue|
            spec_parse_json(spec_body(buffer, 12)) == Ok::<SpecJson, JsonError>(
                #[trigger] view_of(t),
            ) && push_data::data_ok(t) && push_data::data_matches(p.data, t)),
        Err(e) => match e {
            ParseError::Utf8 => spec_parse_json(spec_body(buffer, 12)) == Err::<
                SpecJson,
                JsonError,
            >(JsonError::Utf8),
            ParseError::InvalidJson { identifier, json, cause } => identifier
                == Identifier::PushData && json@ == spec_body(buffer, 12) && ((spec_parse_json(
                spec_body(buffer, 12),
            ) == Err::<SpecJson, JsonError>(cause) && cause != JsonError::Utf8) || (
            exists|t: JsonValue|
                spec_parse_json(spec_body(buffer, 12)) == Ok::<SpecJson, JsonError>(
                    #[trigger] view_of(t),
                ) && !push_data::data_ok(t))),
            _ => false,
        },
    }
}

/// What the parser promises for a TX_ACK frame that carries a real body.
pub open spec fn tx_ack_body_result(buffer: Seq<u8>, r: Result<Packet, ParseError>) -> bool {
    match r {
        Ok(pkt) => pkt matches Packet::Up(Up::TxAck(p)) && p.random_token as int == spec_token(
            buffer,
        ) && p.gateway_mac@ == buffer.subrange(4, 12) && (exists|t: JsonValue|
            spec_parse_json(spec_body(buffer, 12)) == Ok::<SpecJson, JsonError>(
                #[trigger] view_of(t),
            ) && tx_ack::spec_data_from_json(t) == Ok::<tx_ack::Data, JsonError>(p.data)),
        Err(e) => match e {
            ParseError::Utf8 => spec_parse_json(spec_body(buffer, 12)) == Err::<
                SpecJson,
                JsonError,
            >(JsonError::Utf8),
            ParseError::InvalidJson { identifier, json, cause } => identifier == Identifier::TxAck
                && json@ == spec_body(buffer, 12) && ((spec_parse_json(spec_body(buffer, 12))
                == Err::<SpecJson, JsonError>(cause) && cause != JsonError::Utf8) || (
            exists|t: JsonValue|
                spec_parse_json(spec_body(buffer, 12)) == Ok::<SpecJson, JsonError>(
                    #[trigger] view_of(t),
                ) && tx_ack::spec_data_from_json(t) == Err::<tx_ack::Data, JsonError>(cause))),
            _ => false,
        },
    }
}

/// What the parser promises for a PULL_RESP frame.
pub open spec fn pull_resp_result(buffer: Seq<u8>, r: Result<Packet, ParseError>) -> bool {
    match r {
        Ok(pkt) => pkt matches Packet::Down(Down::PullResp(p)) && p.random_token as int
            == spec_token(buffer) && (exists|t: JsonValue|
            spec_parse_json(spec_body(buffer, 4)) == Ok::<SpecJson, JsonError>(
                #[trigger] view_of(t),
            ) && pull_resp::data_ok(t) && pull_resp::data_matches(p.data, t)),
        Err(e) => match e {
            ParseError::Utf8 => spec_parse_json(spec_body(buffer, 4)) == Err::<SpecJson, JsonError>(
                JsonError::Utf8,
            ),
            ParseError::InvalidJson { identifier, json, cause } => identifier
                == Identifier::PullResp && json@ == spec_body(buffer, 4) && ((spec_parse_json(
                spec_body(buffer, 4),
            ) == Err::<SpecJson, JsonError>(cause) && cause != JsonError::Utf8) || (
            exists|t: JsonValue|
                spec_parse_json(spec_body(buffer, 4)) == Ok::<SpecJson, JsonError>(
                    #[trigger] view_of(t),
                ) && !pull_resp::data_ok(t))),
            _ => false,
        },
    }
}

/// What the parser promises of its result on a given buffer: the prefix and
/// length rules exactly; for a kind with a JSON body, the header fields
/// exactly, and the body read as the specification-level reader fixes it
/// for exactly those body bytes — success, the tree, and each rejection are
/// all functions of the input.
pub open spec fn parse_post(buffer: Seq<u8>, r: Result<Packet, ParseError>) -> bool {
    if buffer.len() < 4 {
        r matches Err(ParseError::InvalidPacketLength(got, need)) && got == buffer.len() && need
            == 4
    } else if buffer[0] != PROTOCOL_VERSION {
        r matches Err(ParseError::InvalidProtocolVersion(b)) && b == buffer[0]
    } else if id_of_byte(buffer[3]) is None {
        r matches Err(ParseError::InvalidIdentifier(b)) && b == buffer[3]
    } else {
        match id_of_byte(buffer[3]) {
            Some(Identifier::PushAck) => r matches Ok(Packet::Down(Down::PushAck(p)))
                && p.random_token as int == spec_token(buffer),
            Some(Identifier::PullAck) => r matches Ok(Packet::Down(Down::PullAck(p)))
                && p.random_token as int == spec_token(buffer),
            Some(Identifier::PullData) => if buffer.len() < 12 {
                r matches Err(ParseError::InvalidPacketLength(got, need)) && got == buffer.len()
                    - 4 && need == 8
            } else {
                r matches Ok(Packet::Up(Up::PullData(p))) && p.random_token as int == spec_token(
                    buffer,
                ) && p.gateway_mac@ == buffer.subrange(4, 12)
            },
            Some(Identifier::PushData) => if buffer.len() < 12 {
                r matches Err(ParseError::InvalidPacketLength(got, need)) && got == buffer.len()
                    - 4 && need == 8
            } else {
                push_data_result(buffer, r)
            },
            Some(Identifier::TxAck) => if buffer.len() < 12 {
                r matches Err(ParseError::InvalidPacketLength(got, need)) && got == buffer.len()
                    - 4 && need == 8
            } else if buffer.len() == 12 || (buffer.len() == 13 && buffer[12] == 0) {
                r matches Ok(Packet::Up(Up::TxAck(p))) && p.random_token as int == spec_token(
                    buffer,
                ) && p.gateway_mac@ == buffer.subrange(4, 12) && p.data
                    == tx_ack::spec_default_data()
            } else {
                tx_ack_body_result(buffer, r)
            },
            Some(Identifier::PullResp) => pull_resp_result(buffer, r),
            None => false,
        }
    }
}

/// A written PULL_ACK reads back as itself: whatever the parser returns on
/// those bytes is this frame.
pub proof fn lemma_pull_ack_round_trip(p: pull_ack::Packet, r: Result<Packet, ParseError>)
    requires
        parse_post(p.wire_bytes(), r),
    ensures
        r matches Ok(pkt) && pkt matches Packet::Down(Down::PullAck(q)) && q == p,
{
    let w = p.wire_bytes();
    assert(w[0] == PROTOCOL_VERSION && w[3] == 4);
    assert(spec_token(w) == p.random_token) by {
        assert(w[1] == p.random_token / 256 && w[2] == p.random_token % 256);
    }
}

/// A written PUSH_ACK reads back as itself.
pub proof fn lemma_push_ack_round_trip(p: push_ack::Packet, r: Result<Packet, ParseError>)
    requires
        parse_post(p.wire_bytes(), r),
    ensures
        r matches Ok(pkt) && pkt matches Packet::Down(Down::PushAck(q)) && q == p,
{
    let w = p.wire_bytes();
    assert(w[0] == PROTOCOL_VERSION && w[3] == 1);
    assert(spec_token(w) == p.random_token) by {
        assert(w[1] == p.random_token / 256 && w[2] == p.random_token % 256);
    }
}

/// A written PULL_DATA reads back as itself, gateway identifier included.
pub proof fn lemma_pull_data_round_trip(p: pull_data::Packet, r: Result<Packet, ParseError>)
    requires
        parse_post(p.wire_bytes(), r),
    ensures
        r matches Ok(pkt) && pkt matches Packet::Up(Up::PullData(q)) && q == p,
{
    let w = p.wire_bytes();
    assert(w.len() == 12);
    assert(w[0] == PROTOCOL_VERSION && w[3] == 2);
    assert(spec_token(w) == p.random_token) by {
        assert(w[1] == p.random_token / 256 && w[2] == p.random_token % 256);
    }
    assert(w.subrange(4, 12) =~= p.gateway_mac@);
    if let Ok(Packet::Up(Up::PullData(q))) = r {
        crate::types::lemma_mac_view_injective(q.gateway_mac, p.gateway_mac);
    }
}

/// Maps a JSON-layer rejection onto the frame-level taxonomy: ill-formed
/// UTF-8 keeps its own kind; everything else carries the body text.
fn json_err(id: Identifier, body: &[u8], cause: JsonError) -> (r: ParseError)
    ensures
        cause == JsonError::Utf8 ==> r matches ParseError::Utf8,
        cause != JsonError::Utf8 ==> (r matches ParseError::InvalidJson {
            identifier,
            json,
            cause: c,
        } && identifier == id && json@ == body@ && c == cause),
{
    if let JsonError::Utf8 = cause {
        ParseError::Utf8
    } else {
        let mut json: Vec<u8> = Vec::new();
        crate::json::push_bytes(&mut json, body);
        proof {
            assert(json@ =~= body@);
        }
        ParseError::InvalidJson { identifier: id, json, cause }
    }
}

/// Reads the PUSH_DATA body of a long-enough frame.
#[verifier::rlimit(100)]
fn parse_push_data_body(buffer: &[u8], token: u16, mac: MacAddress) -> (r: Result<
    Packet,
    ParseError,
>)
    requires
        buffer@.len() >= 12,
        token as int == spec_token(buffer@),
        mac@ == buffer@.subrange(4, 12),
    ensures
        push_data_result(buffer@, r),
{
    let n = buffer.len();
    let end = if n > 12 && buffer[n - 1] == 0 {
        n - 1
    } else {
        n
    };
    let body = vstd::slice::slice_subrange(buffer, 12, end);
    proof {
        assert(body@ =~= spec_body(buffer@, 12));
    }
    let tree = match parse_json(body) {
        Ok(t) => t,
        Err(e) => {
            return Err(json_err(Identifier::PushData, body, e));
        },
    };
    match push_data::Data::from_json(&tree) {
        Ok(data) => {
            proof {
                assert(push_data::data_ok(tree) && push_data::data_matches(data, tree));
                assert(spec_parse_json(spec_body(buffer@, 12)) == Ok::<SpecJson, JsonError>(
                    view_of(tree),
                ));
                assert(exists|t: JsonValue|
                    spec_parse_json(spec_body(buffer@, 12)) == Ok::<SpecJson, JsonError>(
                        #[trigger] view_of(t),
                    ) && push_data::data_ok(t) && push_data::data_matches(data, t));
            }
            Ok(
                Packet::Up(
                    Up::PushData(
                        push_data::Packet { random_token: token, gateway_mac: mac, data },
                    ),
                ),
            )
        },
        Err(e) => {
            proof {
                assert(!push_data::data_ok(tree));
                assert(spec_parse_json(spec_body(buffer@, 12)) == Ok::<SpecJson, JsonError>(
                    view_of(tree),
                ));
                assert(exists|t: JsonValue|
                    spec_parse_json(spec_body(buffer@, 12)) == Ok::<SpecJson, JsonError>(
                        #[trigger] view_of(t),
                    ) && !push_data::data_ok(t));
            }
            Err(json_err(Identifier::PushData, body, e))
        },
    }
}

/// Reads the TX_ACK body of a frame that carries one.
#[verifier::rlimit(100)]
fn parse_tx_ack_body(buffer: &[u8], token: u16, mac: MacAddress) -> (r: Result<Packet, ParseError>)
    requires
        buffer@.len() >= 12,
        token as int == spec_token(buffer@),
        mac@ == buffer@.subrange(4, 12),
    ensures
        tx_ack_body_result(buffer@, r),
{
    let n = buffer.len();
    let end = if n > 12 && buffer[n - 1] == 0 {
        n - 1
    } else {
        n
    };
    let body = vstd::slice::slice_subrange(buffer, 12, end);
    proof {
        assert(body@ =~= spec_body(buffer@, 12));
    }
    let tree = match parse_json(body) {
        Ok(t) => t,
        Err(e) => {
            return Err(json_err(Identifier::TxAck, body, e));
        },
    };
    match tx_ack::Data::from_json(&tree) {
        Ok(data) => {
            proof {
                assert(tx_ack::spec_data_from_json(tree) == Ok::<tx_ack::Data, JsonError>(data));
            }
            Ok(Packet::Up(Up::TxAck(tx_ack::Packet { random_token: token, gateway_mac: mac, data })))
        },
        Err(e) => {
            proof {
                assert(tx_ack::spec_data_from_json(tree) == Err::<tx_ack::Data, JsonError>(e));
            }
            Err(json_err(Identifier::TxAck, body, e))
        },
    }
}

/// Reads the PULL_RESP body.
#[verifier::rlimit(100)]
fn parse_pull_resp_body(buffer: &[u8], token: u16) -> (r: Result<Packet, ParseError>)
    requires
        buffer@.len() >= 4,
        token as int == spec_token(buffer@),
    ensures
        pull_resp_result(buffer@, r),
{
    let n = buffer.len();
    let end = if n > 4 && buffer[n - 1] == 0 {
        n - 1
    } else {
        n
    };
    let body = vstd::slice::slice_subrange(buffer, 4, end);
    proof {
        assert(body@ =~= spec_body(buffer@, 4));
    }
    let tree = match parse_json(body) {
        Ok(t) => t,
        Err(e) => {
            return Err(json_err(Identifier::PullResp, body, e));
        },
    };
    match pull_resp::Data::from_json(&tree) {
        Ok(data) => {
            proof {
                assert(pull_resp::data_ok(tree) && pull_resp::data_matches(data, tree));
                assert(spec_parse_json(spec_body(buffer@, 4)) == Ok::<SpecJson, JsonError>(
                    view_of(tree),
                ));
                assert(exists|t: JsonValue|
                    spec_parse_json(spec_body(buffer@, 4)) == Ok::<SpecJson, JsonError>(
                        #[trigger] view_of(t),
                    ) && pull_resp::data_ok(t) && pull_resp::data_matches(data, t));
            }
            Ok(Packet::Down(Down::PullResp(Box::new(pull_resp::Packet { random_token: token, data }))))
        },
        Err(e) => {
            proof {
                assert(!pull_resp::data_ok(tree));
                assert(spec_parse_json(spec_body(buffer@, 4)) == Ok::<SpecJson, JsonError>(
                    view_of(tree),
                ));
                assert(exists|t: JsonValue|
                    spec_parse_json(spec_body(buffer@, 4)) == Ok::<SpecJson, JsonError>(
                        #[trigger] view_of(t),
                    ) && !pull_resp::data_ok(t));
            }
            Err(json_err(Identifier::PullResp, body, e))
        },
    }
}

impl Packet {
    /// Reads one frame, of either direction.
    #[verifier::rlimit(100)]
    pub fn parse(buffer: &[u8]) -> (r: Result<Packet, ParseError>)
        ensures
            parse_post(buffer@, r),
    {
        let n = buffer.len();
        if n < 4 {
            return Err(ParseError::InvalidPacketLength(n, 4));
        }
        if buffer[0] != PROTOCOL_VERSION {
            return Err(ParseError::InvalidProtocolVersion(buffer[0]));
        }
        let id = match Identifier::from_byte(buffer[3]) {
            None => {
                return Err(ParseError::InvalidIdentifier(buffer[3]));
            },
            Some(id) => id,
        };
        let token = random_token(buffer);
        match id {
            Identifier::PushAck => Ok(
                Packet::Down(Down::PushAck(push_ack::Packet { random_token: token })),
            ),
            Identifier::PullAck => Ok(
                Packet::Down(Down::PullAck(pull_ack::Packet { random_token: token })),
            ),
            Identifier::PullData => {
                let rest = vstd::slice::slice_subrange(buffer, 4, n);
                let mac = match gateway_mac(rest) {
                    Ok(mac) => mac,
                    Err(e) => {
                        return Err(e);
                    },
                };
                proof {
                    assert(buffer@.subrange(4, 12) =~= rest@.subrange(0, 8));
                }
                Ok(
                    Packet::Up(
                        Up::PullData(pull_data::Packet { random_token: token, gateway_mac: mac }),
                    ),
                )
            },
            Identifier::PushData => {
                let rest = vstd::slice::slice_subrange(buffer, 4, n);
                let mac = match gateway_mac(rest) {
                    Ok(mac) => mac,
                    Err(e) => {
                        return Err(e);
                    },
                };
                proof {
                    assert(buffer@.subrange(4, 12) =~= rest@.subrange(0, 8));
                }
                parse_push_data_body(buffer, token, mac)
            },
            Identifier::TxAck => {
                let rest = vstd::slice::slice_subrange(buffer, 4, n);
                let mac = match gateway_mac(rest) {
                    Ok(mac) => mac,
                    Err(e) => {
                        return Err(e);
                    },
                };
                proof {
                    assert(buffer@.subrange(4, 12) =~= rest@.subrange(0, 8));
                }
                if n == 12 || (n == 13 && buffer[12] == 0) {
                    return Ok(
                        Packet::Up(
                            Up::TxAck(
                                tx_ack::Packet {
                                    random_token: token,
                                    gateway_mac: mac,
                                    data: tx_ack::Data::empty(),
                                },
                            ),
                        ),
                    );
                }
                parse_tx_ack_body(buffer, token, mac)
            },
            Identifier::PullResp => parse_pull_resp_body(buffer, token),
        }
    }

    /// Reads a frame that must be an uplink, as the server side does.
    pub fn parse_uplink(buffer: &[u8]) -> (r: Result<Up, ParseError>)
        ensures
            match r {
                Ok(up) => parse_post(buffer@, Ok(Packet::Up(up))),
                Err(e) => match e {
                    ParseError::UnexpectedDownlink(d) => parse_post(buffer@, Ok(Packet::Down(d))),
                    _ => parse_post(buffer@, Err(e)),
                },
            },
    {
        match Self::parse(buffer) {
            Ok(Packet::Up(up)) => Ok(up),
            Ok(Packet::Down(down)) => Err(ParseError::UnexpectedDownlink(down)),
            Err(e) => Err(e),
        }
    }

    /// Reads a frame that must be a downlink, as the client side does.
    pub fn parse_downlink(buffer: &[u8]) -> (r: Result<Down, ParseError>)
        ensures
            match r {
                Ok(down) => parse_post(buffer@, Ok(Packet::Down(down))),
                Err(e) => match e {
                    ParseError::UnexpectedUplink(up) => parse_post(buffer@, Ok(Packet::Up(*up))),
                    _ => parse_post(buffer@, Err(e)),
                },
            },
    {
        match Self::parse(buffer) {
            Ok(Packet::Down(down)) => Ok(down),
            Ok(Packet::Up(up)) => Err(ParseError::UnexpectedUplink(Box::new(up))),
            Err(e) => Err(e),
        }
    }
}

} // verus!
